//! A small readiness poller over the `poll` system call.
//!
//! Handles pair a descriptor with the poll flags it is watched for; the
//! poller keeps, in step with them, the `pollfd` records handed to the
//! kernel. The filtering of revents against each handle's interest is
//! verified; only the system call is trusted.

use vstd::prelude::*;

use crate::SysError;

verus! {

/// Poll flag: data to read.
pub const POLLIN_BITS: i16 = 0x0001;

/// Poll flag: urgent data to read.
pub const POLLPRI_BITS: i16 = 0x0002;

/// Poll flag: room to write.
pub const POLLOUT_BITS: i16 = 0x0004;

/// Poll flag: error condition.
pub const POLLERR_BITS: i16 = 0x0008;

/// Poll flag: hang-up.
pub const POLLHUP_BITS: i16 = 0x0010;

/// Poll flag: the descriptor is not open.
pub const POLLNVAL_BITS: i16 = 0x0020;

/// A set of `poll` event flags.
#[derive(Clone, Copy, PartialEq, Eq, Structural, Debug)]
pub struct PollFlag {
    bits: i16,
}

impl PollFlag {
    /// The raw bit pattern.
    pub closed spec fn spec_bits(self) -> i16 {
        self.bits
    }

    /// The set with no flags.
    pub fn empty() -> (r: PollFlag)
        ensures
            r.spec_bits() == 0,
    {
        PollFlag { bits: 0 }
    }

    /// The set holding exactly `POLLIN`.
    pub fn pollin() -> (r: PollFlag)
        ensures
            r.spec_bits() == POLLIN_BITS,
    {
        PollFlag { bits: POLLIN_BITS }
    }

    /// The set holding exactly `POLLOUT`.
    pub fn pollout() -> (r: PollFlag)
        ensures
            r.spec_bits() == POLLOUT_BITS,
    {
        PollFlag { bits: POLLOUT_BITS }
    }

    /// The given bits, with unknown flags dropped.
    pub fn from_bits_truncate(bits: i16) -> (r: PollFlag)
        ensures
            r.spec_bits() == bits & 0x003f,
    {
        PollFlag { bits: bits & 0x003f }
    }

    /// The raw bit pattern.
    pub fn bits(&self) -> (r: i16)
        ensures
            r == self.spec_bits(),
    {
        self.bits
    }

    /// The union of the two flag sets.
    pub fn union(self, other: PollFlag) -> (r: PollFlag)
        ensures
            r.spec_bits() == self.spec_bits() | other.spec_bits(),
    {
        PollFlag { bits: self.bits | other.bits }
    }

    /// Whether every flag of `other` is present.
    pub fn contains(&self, other: PollFlag) -> (r: bool)
        ensures
            r == (self.spec_bits() & other.spec_bits() == other.spec_bits()),
    {
        self.bits & other.bits == other.bits
    }

    /// Whether some flag is present in both sets.
    pub fn intersects(&self, other: PollFlag) -> (r: bool)
        ensures
            r == (self.spec_bits() & other.spec_bits() != 0),
    {
        self.bits & other.bits != 0
    }
}

/// One record of the array handed to `poll`: a descriptor, the events it is
/// watched for, and the events the kernel reported.
#[allow(non_camel_case_types)]
#[derive(Clone, Copy, PartialEq, Eq, Structural, Debug)]
pub struct pollfd {
    pub fd: i32,
    pub events: i16,
    pub revents: i16,
}

/// A descriptor held together with the poll flags it is watched for.
#[derive(Clone, Copy, PartialEq, Eq, Structural, Debug)]
pub struct Handle {
    fd: i32,
    evts: PollFlag,
}

impl Handle {
    /// Pairs a descriptor with the flags to watch it for.
    pub fn new(fd: i32, evts: PollFlag) -> (r: Handle)
        ensures
            r.spec_fd() == fd,
            r.spec_evts() == evts,
    {
        Handle { fd, evts }
    }

    /// The descriptor.
    pub closed spec fn spec_fd(&self) -> i32 {
        self.fd
    }

    /// The watched flags.
    pub closed spec fn spec_evts(&self) -> PollFlag {
        self.evts
    }

    /// The descriptor.
    pub fn fd(&self) -> (r: i32)
        ensures
            r == self.spec_fd(),
    {
        self.fd
    }

    /// The record for this handle as `poll` expects it, with no reported
    /// events yet.
    pub fn as_pollfd(&self) -> (r: pollfd)
        ensures
            r.fd == self.spec_fd(),
            r.events == self.spec_evts().spec_bits(),
            r.revents == 0,
    {
        pollfd { fd: self.fd, events: self.evts.bits(), revents: 0 }
    }
}

/// A readiness event reported for a handle: the descriptor and the flags
/// that fired for it.
#[derive(Clone, Copy, PartialEq, Eq, Structural, Debug)]
pub struct Event {
    pub fd: i32,
    pub evts: PollFlag,
}

impl Event {
    /// Whether the event reports data to read.
    pub fn is_readable(&self) -> (r: bool)
        ensures
            r == (self.evts.spec_bits() & POLLIN_BITS != 0),
    {
        self.evts.intersects(PollFlag::pollin())
    }
}

/// Whether `e` reports a handle of `hdls`: its descriptor is watched, and
/// the fired flags intersect that handle's interest.
pub open spec fn spec_event_from(hdls: Seq<Handle>, e: Event) -> bool {
    exists|i: int|
        0 <= i < hdls.len() && (#[trigger] hdls[i]).spec_fd() == e.fd && e.evts.spec_bits()
            & hdls[i].spec_evts().spec_bits() != 0
}

/// The records that one poll yields, as `(descriptor, fired bits)` pairs:
/// walking the handles in order, each whose reported flags — unknown bits
/// dropped — intersect its interest contributes one record.
pub open spec fn spec_fired_records(hdls: Seq<Handle>, rv: Seq<i16>) -> Seq<(i32, i16)>
    decreases hdls.len(),
{
    if hdls.len() == 0 || hdls.len() != rv.len() {
        Seq::empty()
    } else {
        let rest = spec_fired_records(hdls.drop_last(), rv.drop_last());
        let bits = rv.last() & 0x003f;
        if bits & hdls.last().spec_evts().spec_bits() != 0 {
            rest.push((hdls.last().spec_fd(), bits))
        } else {
            rest
        }
    }
}

/// Folds the kernel's reported flag words into events, one per watched
/// handle whose report intersects its interest, in order of addition.
pub fn events_from_revents(hdls: &Vec<Handle>, rv: &Vec<i16>) -> (r: Vec<Event>)
    requires
        rv@.len() == hdls@.len(),
    ensures
        r@.len() == spec_fired_records(hdls@, rv@).len(),
        forall|i: int|
            0 <= i < r@.len() ==> (#[trigger] r@[i]).fd == spec_fired_records(hdls@, rv@)[i].0
                && r@[i].evts.spec_bits() == spec_fired_records(hdls@, rv@)[i].1,
        forall|k: int|
            0 <= k < r@.len() ==> spec_event_from(hdls@, #[trigger] r@[k]),
{
    let mut r: Vec<Event> = Vec::new();
    let mut k: usize = 0;
    while k < hdls.len()
        invariant
            rv@.len() == hdls@.len(),
            k <= hdls@.len(),
            r@.len() == spec_fired_records(hdls@.take(k as int), rv@.take(k as int)).len(),
            forall|i: int|
                0 <= i < r@.len() ==> (#[trigger] r@[i]).fd == spec_fired_records(
                    hdls@.take(k as int),
                    rv@.take(k as int),
                )[i].0 && r@[i].evts.spec_bits() == spec_fired_records(
                    hdls@.take(k as int),
                    rv@.take(k as int),
                )[i].1,
            forall|j: int|
                0 <= j < r@.len() ==> spec_event_from(hdls@, #[trigger] r@[j]),
        decreases hdls@.len() - k,
    {
        let ghost pre_h = hdls@.take(k as int);
        let ghost pre_r = rv@.take(k as int);
        let revts = PollFlag::from_bits_truncate(rv[k]);
        let hdl = hdls[k];
        if revts.intersects(hdl.evts) {
            let e = Event { fd: hdl.fd, evts: revts };
            r.push(e);
            proof {
                assert(hdls@[k as int].spec_fd() == e.fd && e.evts.spec_bits()
                    & hdls@[k as int].spec_evts().spec_bits() != 0);
            }
        }
        proof {
            let post_h = hdls@.take(k as int + 1);
            let post_r = rv@.take(k as int + 1);
            assert(post_h.drop_last() =~= pre_h);
            assert(post_r.drop_last() =~= pre_r);
            assert(post_h.last() == hdls@[k as int]);
            assert(post_r.last() == rv@[k as int]);
        }
        k = k + 1;
    }
    proof {
        assert(hdls@.take(hdls@.len() as int) =~= hdls@);
        assert(rv@.take(rv@.len() as int) =~= rv@);
    }
    r
}

/// A poller: a list of handles and, in step with it, the records handed to
/// the kernel.
pub struct Poll {
    hdls: Vec<Handle>,
    pfds: Vec<pollfd>,
}

impl Poll {
    /// The watched handles, in order of addition.
    pub closed spec fn spec_handles(&self) -> Seq<Handle> {
        self.hdls@
    }

    /// Well-formedness: one kernel record per handle, in step.
    pub closed spec fn wf(&self) -> bool {
        &&& self.pfds@.len() == self.hdls@.len()
        &&& forall|i: int|
            0 <= i < self.hdls@.len() ==> (#[trigger] self.pfds@[i]).fd
                == self.hdls@[i].spec_fd() && self.pfds@[i].events
                == self.hdls@[i].spec_evts().spec_bits()
    }

    /// Creates a poller with nothing watched.
    pub fn new() -> (r: Poll)
        ensures
            r.wf(),
            r.spec_handles().len() == 0,
    {
        Poll { hdls: Vec::new(), pfds: Vec::new() }
    }

    /// Adds a handle to the watched set.
    pub fn add(&mut self, hdl: Handle)
        requires
            old(self).wf(),
        ensures
            final(self).wf(),
            final(self).spec_handles() == old(self).spec_handles().push(hdl),
    {
        self.pfds.push(hdl.as_pollfd());
        self.hdls.push(hdl);
    }

    /// Blocks until a watched descriptor is ready, with no time bound, and
    /// reports the handles that fired.
    pub fn poll(&mut self) -> (r: Result<Vec<Event>, SysError>)
        requires
            old(self).wf(),
        ensures
            final(self).wf(),
            final(self).spec_handles() == old(self).spec_handles(),
            r matches Ok(evs) ==> evs@.len() <= old(self).spec_handles().len() && (forall|k: int|
                0 <= k < evs@.len() ==> spec_event_from(
                    old(self).spec_handles(),
                    #[trigger] evs@[k],
                )),
            r matches Err(e) ==> e is Os,
    {
        self.poll_timeout(-1)
    }

    /// Blocks until a watched descriptor is ready or `timeout_ms`
    /// milliseconds pass (a negative timeout means no bound), and reports
    /// the handles that fired: one event per handle whose reported flags
    /// intersect its interest, in order. Interruption by a signal is
    /// retried transparently.
    pub fn poll_timeout(&mut self, timeout_ms: i64) -> (r: Result<Vec<Event>, SysError>)
        requires
            old(self).wf(),
        ensures
            final(self).wf(),
            final(self).spec_handles() == old(self).spec_handles(),
            r matches Ok(evs) ==> evs@.len() <= old(self).spec_handles().len() && (forall|k: int|
                0 <= k < evs@.len() ==> spec_event_from(
                    old(self).spec_handles(),
                    #[trigger] evs@[k],
                )),
            r matches Err(e) ==> e is Os,
    {
        let mut fds: Vec<(i32, i16)> = Vec::new();
        let mut i: usize = 0;
        while i < self.pfds.len()
            invariant
                self.wf(),
                *self == *old(self),
                i <= self.pfds@.len(),
                fds@.len() == i,
                forall|k: int|
                    0 <= k < i ==> (#[trigger] fds@[k]).0 == self.pfds@[k].fd && fds@[k].1
                        == self.pfds@[k].events,
            decreases self.pfds@.len() - i,
        {
            let p = self.pfds[i];
            fds.push((p.fd, p.events));
            i = i + 1;
        }
        let tm: i32 = if timeout_ms < 0 || timeout_ms > 0x7fff_ffff {
            -1
        } else {
            timeout_ms as i32
        };
        match sys_poll(&fds, tm) {
            Ok(rv) => {
                let evs = events_from_revents(&self.hdls, &rv);
                proof {
                    lemma_fired_records_bounded(self.hdls@, rv@);
                }
                Ok(evs)
            },
            Err(e) => Err(SysError::Os(e)),
        }
    }
}

/// One poll yields at most one record per handle.
proof fn lemma_fired_records_bounded(hdls: Seq<Handle>, rv: Seq<i16>)
    ensures
        spec_fired_records(hdls, rv).len() <= hdls.len(),
    decreases hdls.len(),
{
    if hdls.len() != 0 && hdls.len() == rv.len() {
        lemma_fired_records_bounded(hdls.drop_last(), rv.drop_last());
    }
}

/// Relies on `nix::poll::poll`: waits until one of the given descriptors
/// reports an event of interest or the timeout passes (`timeout_ms` in
/// milliseconds, negative for no bound), and hands back the reported flag
/// bits, one word per record, in order. A call interrupted by a signal is
/// retried; any other failure hands back the `errno` value.
#[verifier::external_body]
fn sys_poll(fds: &Vec<(i32, i16)>, timeout_ms: i32) -> (r: Result<Vec<i16>, i32>)
    ensures
        r matches Ok(rv) ==> rv@.len() == fds@.len(),
{
    let mut pfds: Vec<nix::poll::PollFd> = fds
        .iter()
        .map(|p| nix::poll::PollFd::new(p.0, nix::poll::PollFlags::from_bits_truncate(p.1)))
        .collect();
    loop {
        match nix::poll::poll(&mut pfds, timeout_ms) {
            Ok(_) => {
                return Ok(
                    pfds.iter().map(|p| p.revents().map_or(0, |f| f.bits())).collect(),
                );
            },
            Err(nix::errno::Errno::EINTR) => (),
            Err(e) => return Err(e as i32),
        }
    }
}

} // verus!
