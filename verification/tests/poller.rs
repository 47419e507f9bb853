//! Scenario tests for the `poll`-based poller.

use rivet::poll::{Handle, Poll, PollFlag};

#[test]
fn test_poll_flags() {
    let flags = PollFlag::pollin().union(PollFlag::pollout());
    assert!(flags.contains(PollFlag::pollin()));
    assert!(flags.contains(PollFlag::pollout()));
    assert!(flags.intersects(PollFlag::pollin()));
    assert!(!PollFlag::empty().intersects(flags));
    assert_eq!(PollFlag::from_bits_truncate(0x7fi16).bits(), 0x3fi16);
}

#[test]
fn test_handle_as_pollfd() {
    let hdl = Handle::new(3, PollFlag::pollin());
    let pfd = hdl.as_pollfd();
    assert_eq!(pfd.fd, 3);
    assert_eq!(pfd.events, PollFlag::pollin().bits());
    assert_eq!(pfd.revents, 0);
}

#[test]
fn test_poller_reports_readable_pipe() {
    let (read_end, write_end) = nix::unistd::pipe().unwrap();
    let mut poller = Poll::new();
    poller.add(Handle::new(read_end, PollFlag::pollin()));

    let events = poller.poll_timeout(100).unwrap();
    assert_eq!(events.len(), 0);

    nix::unistd::write(write_end, b"ping").unwrap();
    let events = poller.poll_timeout(100).unwrap();
    assert_eq!(events.len(), 1);
    assert_eq!(events[0].fd, read_end);
    assert!(events[0].is_readable());

    nix::unistd::close(read_end).unwrap();
    nix::unistd::close(write_end).unwrap();
}
