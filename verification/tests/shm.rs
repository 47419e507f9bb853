//! Tests for the shared-memory helper and the capacity arithmetic.

use rivet::buffer::map::{align_up, get_page_size, next_power_of_two, page_aligned, Shm};

#[test]
fn test_align_up() {
    assert_eq!(align_up(1, 4096), 4096);
    assert_eq!(align_up(4096, 4096), 4096);
    assert_eq!(align_up(4097, 4096), 8192);
    assert_eq!(align_up(10, 3), 12);
}

#[test]
fn test_next_power_of_two() {
    assert_eq!(next_power_of_two(1), 1);
    assert_eq!(next_power_of_two(2), 2);
    assert_eq!(next_power_of_two(3), 4);
    assert_eq!(next_power_of_two(4096), 4096);
    assert_eq!(next_power_of_two(4097), 8192);
}

#[test]
fn test_page_aligned() {
    let page: usize = get_page_size();
    assert!(page >= 1);
    assert_eq!(page_aligned(0), page);
    assert_eq!(page_aligned(1), page);
    assert_eq!(page_aligned(page), page);
    assert_eq!(page_aligned(page + 1), 2 * page);
}

#[test]
fn test_shm_lifecycle() {
    let mut shm = Shm::new().unwrap();
    assert!(shm.as_raw_fd() >= 0);
    shm.set_len(8192).unwrap();
}

#[test]
fn test_shm_names_are_fresh() {
    // Two objects can coexist: their random names did not collide, and each
    // was unlinked at birth, so neither blocks the other.
    let shm1 = Shm::new().unwrap();
    let shm2 = Shm::new().unwrap();
    assert_ne!(shm1.as_raw_fd(), shm2.as_raw_fd());
}

#[test]
fn test_shm_descriptor_is_reclaimed_on_drop() {
    // If dropping an object leaked its descriptor, this loop would exhaust
    // the default descriptor table long before it finishes.
    for _ in 0..2000 {
        let shm = Shm::new().unwrap();
        assert!(shm.as_raw_fd() >= 0);
    }
}
