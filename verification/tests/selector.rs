//! Scenario tests for the primary (epoll) selector, driven with real pipes.

use rivet::{EventSet, Selector};

#[test]
fn test_poll_timeout() {
    let (read_end, write_end) = nix::unistd::pipe().unwrap();
    let mut selector = Selector::new().unwrap();

    selector.register(read_end, EventSet::readable()).unwrap();

    assert_eq!(selector.poll_timeout(100).unwrap().count(), 0);
    nix::unistd::write(write_end, b"hello world").unwrap();
    assert_eq!(selector.poll_timeout(100).unwrap().count(), 1);

    nix::unistd::close(read_end).unwrap();
    nix::unistd::close(write_end).unwrap();
}

#[test]
fn test_poll() {
    let (read1, write1) = nix::unistd::pipe().unwrap();
    let (read2, write2) = nix::unistd::pipe().unwrap();
    let mut selector = Selector::new().unwrap();

    selector.register(read1, EventSet::readable()).unwrap();
    selector.register(read2, EventSet::readable()).unwrap();

    nix::unistd::write(write1, b"twelve bytes").unwrap();
    assert_eq!(selector.poll().unwrap().count(), 1);
    nix::unistd::write(write2, b"more data").unwrap();
    assert_eq!(selector.poll().unwrap().count(), 2);
    let mut buf = [0u8; 12];
    assert_eq!(nix::unistd::read(read1, &mut buf).unwrap(), 12);
    assert_eq!(selector.poll().unwrap().count(), 1);

    nix::unistd::close(read1).unwrap();
    nix::unistd::close(write1).unwrap();
    nix::unistd::close(read2).unwrap();
    nix::unistd::close(write2).unwrap();
}

#[test]
fn test_deregister() {
    let (read1, write1) = nix::unistd::pipe().unwrap();
    let (read2, write2) = nix::unistd::pipe().unwrap();
    let mut selector = Selector::new().unwrap();

    selector.register(read1, EventSet::readable()).unwrap();
    selector.register(read2, EventSet::readable()).unwrap();
    nix::unistd::write(write1, b"abc").unwrap();
    nix::unistd::write(write2, b"def").unwrap();

    selector.deregister(read1).unwrap();
    let mut fired = selector.poll().unwrap();
    assert_eq!(fired.next().unwrap().fd(), read2);
    selector.register(read1, EventSet::readable()).unwrap();
    selector.deregister(read2).unwrap();
    let mut fired = selector.poll().unwrap();
    assert_eq!(fired.next().unwrap().fd(), read1);

    nix::unistd::close(read1).unwrap();
    nix::unistd::close(write1).unwrap();
    nix::unistd::close(read2).unwrap();
    nix::unistd::close(write2).unwrap();
}

#[test]
fn test_fired_mask_is_readable() {
    let (read_end, write_end) = nix::unistd::pipe().unwrap();
    let mut selector = Selector::new().unwrap();

    selector.register(read_end, EventSet::readable()).unwrap();
    nix::unistd::write(write_end, b"hello world").unwrap();

    let mut fired = selector.poll_timeout(100).unwrap();
    let event = fired.next().unwrap();
    assert_eq!(event.fd(), read_end);
    assert!(event.evset().is_readable());
    assert!(fired.next().is_none());

    nix::unistd::close(read_end).unwrap();
    nix::unistd::close(write_end).unwrap();
}

#[test]
fn test_poll_zero_timeout_does_not_block() {
    let (read_end, write_end) = nix::unistd::pipe().unwrap();
    let mut selector = Selector::new().unwrap();

    selector.register(read_end, EventSet::readable()).unwrap();

    let before = std::time::Instant::now();
    assert_eq!(selector.poll_timeout(0).unwrap().count(), 0);
    assert!(before.elapsed() < std::time::Duration::from_millis(90));

    nix::unistd::close(read_end).unwrap();
    nix::unistd::close(write_end).unwrap();
}

#[test]
fn test_double_register_reports_error() {
    let (read_end, write_end) = nix::unistd::pipe().unwrap();
    let mut selector = Selector::new().unwrap();

    selector.register(read_end, EventSet::readable()).unwrap();
    // A second registration of the same descriptor is refused by the kernel.
    assert!(selector.register(read_end, EventSet::readable()).is_err());
    // One deregistration leaves it unregistered; a fresh registration works.
    selector.deregister(read_end).unwrap();
    selector.register(read_end, EventSet::readable()).unwrap();

    nix::unistd::close(read_end).unwrap();
    nix::unistd::close(write_end).unwrap();
}

#[test]
fn test_reregister_empty_mask_deregisters() {
    let (read_end, write_end) = nix::unistd::pipe().unwrap();
    let mut selector = Selector::new().unwrap();

    selector.register(read_end, EventSet::readable()).unwrap();
    nix::unistd::write(write_end, b"x").unwrap();
    assert_eq!(selector.poll_timeout(100).unwrap().count(), 1);

    // An empty mask is a deregistration: nothing fires any more, and a
    // fresh registration of the same descriptor succeeds.
    selector.reregister(read_end, EventSet::empty()).unwrap();
    assert_eq!(selector.poll_timeout(50).unwrap().count(), 0);
    selector.register(read_end, EventSet::readable()).unwrap();
    assert_eq!(selector.poll_timeout(100).unwrap().count(), 1);

    nix::unistd::close(read_end).unwrap();
    nix::unistd::close(write_end).unwrap();
}

#[test]
fn test_reregister_changes_mask() {
    let (read_end, write_end) = nix::unistd::pipe().unwrap();
    let mut selector = Selector::new().unwrap();

    selector.register(read_end, EventSet::readable()).unwrap();
    nix::unistd::write(write_end, b"x").unwrap();
    assert_eq!(selector.poll_timeout(100).unwrap().count(), 1);

    // After narrowing the mask to writable-only, the pending data no longer
    // fires (a pipe's read end never reports writable).
    selector.reregister(read_end, EventSet::writable()).unwrap();
    assert_eq!(selector.poll_timeout(50).unwrap().count(), 0);

    nix::unistd::close(read_end).unwrap();
    nix::unistd::close(write_end).unwrap();
}
