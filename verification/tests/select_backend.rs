//! Scenario tests for the portable `select` backend and its descriptor sets.

use rivet::selector::select::Selector;
use rivet::sys::select::{fd_set, FileSet};
use rivet::EventSet;

#[test]
fn test_fd_set_bits() {
    let mut set = fd_set::new();
    assert!(!set.is_set(0));
    assert!(!set.is_set(63));

    set.set(5);
    set.set(64);
    set.set(1023);
    assert!(set.is_set(5));
    assert!(set.is_set(64));
    assert!(set.is_set(1023));
    assert!(!set.is_set(6));
    assert!(!set.is_set(63));

    set.unset(64);
    assert!(!set.is_set(64));
    assert!(set.is_set(5));

    set.zero();
    assert!(!set.is_set(5));
    assert!(!set.is_set(1023));
}

#[test]
fn test_file_set_starts_empty() {
    let fs = FileSet::new();
    assert!(!fs.0.is_set(0));
    assert!(!fs.0.is_set(512));
}

#[test]
fn test_select_poll_timeout() {
    let (read_end, write_end) = nix::unistd::pipe().unwrap();
    let mut selector = Selector::new().unwrap();

    selector.register(read_end, EventSet::readable()).unwrap();

    assert_eq!(selector.poll_timeout(100).unwrap().count(), 0);
    nix::unistd::write(write_end, b"hello world").unwrap();
    assert_eq!(selector.poll_timeout(100).unwrap().count(), 1);

    let mut fired = selector.poll_timeout(100).unwrap();
    let event = fired.next().unwrap();
    assert_eq!(event.fd(), read_end);
    assert!(event.evset().is_readable());
    assert!(!event.evset().is_writable());

    nix::unistd::close(read_end).unwrap();
    nix::unistd::close(write_end).unwrap();
}

#[test]
fn test_select_deregister() {
    let (read1, write1) = nix::unistd::pipe().unwrap();
    let (read2, write2) = nix::unistd::pipe().unwrap();
    let mut selector = Selector::new().unwrap();

    selector.register(read1, EventSet::readable()).unwrap();
    selector.register(read2, EventSet::readable()).unwrap();
    nix::unistd::write(write1, b"abc").unwrap();
    nix::unistd::write(write2, b"def").unwrap();

    selector.deregister(read1).unwrap();
    let mut fired = selector.poll().unwrap();
    assert_eq!(fired.next().unwrap().fd(), read2);
    assert!(fired.next().is_none());

    selector.register(read1, EventSet::readable()).unwrap();
    selector.deregister(read2).unwrap();
    let mut fired = selector.poll().unwrap();
    assert_eq!(fired.next().unwrap().fd(), read1);
    assert!(fired.next().is_none());

    nix::unistd::close(read1).unwrap();
    nix::unistd::close(write1).unwrap();
    nix::unistd::close(read2).unwrap();
    nix::unistd::close(write2).unwrap();
}

#[test]
fn test_select_reregister_empty_mask_deregisters() {
    let (read_end, write_end) = nix::unistd::pipe().unwrap();
    let mut selector = Selector::new().unwrap();

    selector.register(read_end, EventSet::readable()).unwrap();
    nix::unistd::write(write_end, b"x").unwrap();
    assert_eq!(selector.poll_timeout(100).unwrap().count(), 1);

    selector.reregister(read_end, EventSet::empty()).unwrap();
    assert_eq!(selector.poll_timeout(50).unwrap().count(), 0);

    nix::unistd::close(read_end).unwrap();
    nix::unistd::close(write_end).unwrap();
}
