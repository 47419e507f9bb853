//! Tests for the portable event mask.

use rivet::event::Event;
use rivet::{EventSet, SysError};

#[test]
fn test_single_conditions() {
    assert!(EventSet::readable().is_readable());
    assert!(!EventSet::readable().is_writable());
    assert!(!EventSet::readable().is_error());
    assert!(!EventSet::readable().is_hup());

    assert!(EventSet::writable().is_writable());
    assert!(!EventSet::writable().is_readable());

    assert!(EventSet::error().is_error());
    assert!(!EventSet::error().is_hup());

    assert!(EventSet::hup().is_hup());
    assert!(!EventSet::hup().is_error());

    assert!(EventSet::empty().is_empty());
    assert!(!EventSet::empty().is_readable());
    assert!(!EventSet::readable().is_empty());
}

#[test]
fn test_insert_and_union() {
    let mut set = EventSet::empty();
    set.insert(EventSet::readable());
    set.insert(EventSet::hup());
    assert!(set.is_readable());
    assert!(set.is_hup());
    assert!(!set.is_writable());
    assert!(!set.is_error());

    let both = EventSet::readable().union(EventSet::writable());
    assert!(both.is_readable());
    assert!(both.is_writable());
    assert_eq!(both, EventSet::writable().union(EventSet::readable()));
}

#[test]
fn test_contains_and_intersects() {
    let rw = EventSet::readable().union(EventSet::writable());
    assert!(rw.contains(EventSet::readable()));
    assert!(rw.contains(EventSet::writable()));
    assert!(!rw.contains(EventSet::error()));
    assert!(!rw.contains(rw.union(EventSet::hup())));

    assert!(rw.intersects(EventSet::readable()));
    assert!(!rw.intersects(EventSet::hup()));
    assert!(!EventSet::empty().intersects(rw));
}

#[test]
fn test_event_carries_fd_and_set() {
    let ev = Event { fd: 7, set: EventSet::readable().union(EventSet::hup()) };
    assert_eq!(ev.fd, 7);
    assert!(ev.set.is_readable());
    assert!(ev.set.is_hup());
}

#[test]
fn test_error_messages() {
    assert_eq!(SysError::ExhaustedNames.message(), "exceeded maximum number of retries");
    assert_eq!(SysError::Os(2).message(), "system call failed");
}
