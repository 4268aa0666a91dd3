use kernel::common::{align_down, align_up, is_aligned};

#[test]
fn aligned_values_are_recognised() {
    assert!(is_aligned(0, 4096));
    assert!(is_aligned(8192, 4096));
    assert!(!is_aligned(8191, 4096));
    assert!(is_aligned(7, 1));
}

#[test]
fn align_up_rounds_to_the_next_multiple() {
    assert_eq!(align_up(0, 4096), 0);
    assert_eq!(align_up(1, 4096), 4096);
    assert_eq!(align_up(4096, 4096), 4096);
    assert_eq!(align_up(4097, 4096), 8192);
    assert_eq!(align_up(13, 8), 16);
}

#[test]
fn align_down_rounds_to_the_previous_multiple() {
    assert_eq!(align_down(0, 4096), 0);
    assert_eq!(align_down(1, 4096), 0);
    assert_eq!(align_down(4096, 4096), 4096);
    assert_eq!(align_down(8191, 4096), 4096);
    assert_eq!(align_down(13, 8), 8);
}
