//! The readiness selector over Linux's `epoll` interface.
//!
//! The kernel side — creating the instance, arming descriptors, waiting —
//! is trusted at the system-call boundary; everything the library decides is
//! verified: the translation between the portable event mask and the kernel's
//! flag bits, the registration bookkeeping, and the folding of raw kernel
//! events into `Fired` values.

use vstd::prelude::*;

use crate::SysError;
use crate::event::EventSet;

verus! {

/// Kernel flag: data to read.
pub const EPOLLIN_BITS: i32 = 0x001;

/// Kernel flag: room to write.
pub const EPOLLOUT_BITS: i32 = 0x004;

/// Kernel flag: error condition.
pub const EPOLLERR_BITS: i32 = 0x008;

/// Kernel flag: hang-up.
pub const EPOLLHUP_BITS: i32 = 0x010;

/// Kernel flag: peer closed its end.
pub const EPOLLRDHUP_BITS: i32 = 0x2000;

/// How many events one wait hands back at most.
pub const MAX_EVENTS: usize = 1024;

/// The kernel flag bits that ask for the conditions of `es`: `Readable`
/// becomes `EPOLLIN`, `Writable` becomes `EPOLLOUT`, `Error` becomes
/// `EPOLLERR`, and `Hup` interest is armed as `EPOLLRDHUP`.
pub open spec fn spec_evset_to_epoll(es: EventSet) -> i32 {
    (if es.spec_readable() {
        EPOLLIN_BITS
    } else {
        0
    }) | (if es.spec_writable() {
        EPOLLOUT_BITS
    } else {
        0
    }) | (if es.spec_error() {
        EPOLLERR_BITS
    } else {
        0
    }) | (if es.spec_hup() {
        EPOLLRDHUP_BITS
    } else {
        0
    })
}

/// Translates a portable event mask into the kernel's flag bits.
pub fn evset_to_epoll(es: EventSet) -> (r: i32)
    ensures
        r == spec_evset_to_epoll(es),
{
    let a: i32 = if es.is_readable() {
        EPOLLIN_BITS
    } else {
        0
    };
    let b: i32 = if es.is_writable() {
        EPOLLOUT_BITS
    } else {
        0
    };
    let c: i32 = if es.is_error() {
        EPOLLERR_BITS
    } else {
        0
    };
    let d: i32 = if es.is_hup() {
        EPOLLRDHUP_BITS
    } else {
        0
    };
    a | b | c | d
}

/// Translates fired kernel flag bits back into the portable mask:
/// `EPOLLIN` fires `Readable`, `EPOLLOUT` fires `Writable`, `EPOLLERR`
/// fires `Error`, and either of `EPOLLHUP` and `EPOLLRDHUP` fires `Hup`.
pub fn evset_from_epoll(bits: i32) -> (r: EventSet)
    ensures
        r.spec_readable() == (bits & EPOLLIN_BITS != 0),
        r.spec_writable() == (bits & EPOLLOUT_BITS != 0),
        r.spec_error() == (bits & EPOLLERR_BITS != 0),
        r.spec_hup() == (bits & EPOLLHUP_BITS != 0 || bits & EPOLLRDHUP_BITS != 0),
        r.spec_bits() <= 0xF,
{
    let mut r = EventSet::empty();
    if bits & EPOLLIN_BITS != 0 {
        proof {
            crate::event::lemma_union_stays_low(r.spec_bits(), 0b0001);
        }
        r.insert(EventSet::readable());
    }
    if bits & EPOLLOUT_BITS != 0 {
        proof {
            crate::event::lemma_union_stays_low(r.spec_bits(), 0b0010);
        }
        r.insert(EventSet::writable());
    }
    if bits & EPOLLERR_BITS != 0 {
        proof {
            crate::event::lemma_union_stays_low(r.spec_bits(), 0b0100);
        }
        r.insert(EventSet::error());
    }
    if bits & EPOLLHUP_BITS != 0 || bits & EPOLLRDHUP_BITS != 0 {
        proof {
            crate::event::lemma_union_stays_low(r.spec_bits(), 0b1000);
        }
        r.insert(EventSet::hup());
    }
    r
}

/// Law: the flag translation round-trips: arming the kernel with a mask's
/// flag bits and reading those bits back reports exactly the mask's
/// conditions (`Hup` interest travels as `EPOLLRDHUP` and comes back as
/// such). With `lemma_conditions_determine`, folding the bits back yields
/// the mask itself.
pub proof fn lemma_epoll_translation_round_trip(es: EventSet)
    ensures
        (spec_evset_to_epoll(es) & EPOLLIN_BITS != 0) == es.spec_readable(),
        (spec_evset_to_epoll(es) & EPOLLOUT_BITS != 0) == es.spec_writable(),
        (spec_evset_to_epoll(es) & EPOLLERR_BITS != 0) == es.spec_error(),
        (spec_evset_to_epoll(es) & EPOLLHUP_BITS != 0 || spec_evset_to_epoll(es)
            & EPOLLRDHUP_BITS != 0) == es.spec_hup(),
{
    let r = es.spec_readable();
    let w = es.spec_writable();
    let e = es.spec_error();
    let h = es.spec_hup();
    let b = spec_evset_to_epoll(es);
    assert({
        let bb = (if r {
            0x001i32
        } else {
            0
        }) | (if w {
            0x004i32
        } else {
            0
        }) | (if e {
            0x008i32
        } else {
            0
        }) | (if h {
            0x2000i32
        } else {
            0
        });
        (bb & 0x001 != 0) == r && (bb & 0x004 != 0) == w && (bb & 0x008 != 0) == e && (bb & 0x010
            == 0) && (bb & 0x2000 != 0) == h
    }) by (bit_vector);
}

/// A fired readiness event: a descriptor and the conditions the kernel
/// reported for it.
#[derive(Clone, Copy, PartialEq, Eq, Structural, Debug)]
pub struct Fired {
    fd: i32,
    evset: EventSet,
}

impl Fired {
    /// The descriptor the event is about.
    pub fn fd(&self) -> (r: i32)
        ensures
            r == self.spec_fd(),
    {
        self.fd
    }

    /// The conditions that fired.
    pub fn evset(&self) -> (r: EventSet)
        ensures
            r == self.spec_evset(),
    {
        self.evset
    }

    /// The descriptor, abstractly.
    pub closed spec fn spec_fd(&self) -> int {
        self.fd as int
    }

    /// The conditions, abstractly.
    pub closed spec fn spec_evset(&self) -> EventSet {
        self.evset
    }
}

/// Folds the kernel's raw `(data, flag bits)` pairs into `Fired` values:
/// the data word carries the descriptor it was registered with, and the
/// bits are translated by `evset_from_epoll`, entry for entry.
pub fn fireds_from_events(pairs: &Vec<(u64, i32)>) -> (r: Vec<Fired>)
    ensures
        r@.len() == pairs@.len(),
        forall|i: int|
            0 <= i < pairs@.len() ==> {
                &&& (#[trigger] r@[i]).spec_fd() == pairs@[i].0 as i32
                &&& r@[i].spec_evset().spec_readable() == (pairs@[i].1 & EPOLLIN_BITS != 0)
                &&& r@[i].spec_evset().spec_writable() == (pairs@[i].1 & EPOLLOUT_BITS != 0)
                &&& r@[i].spec_evset().spec_error() == (pairs@[i].1 & EPOLLERR_BITS != 0)
                &&& r@[i].spec_evset().spec_hup() == (pairs@[i].1 & EPOLLHUP_BITS != 0
                    || pairs@[i].1 & EPOLLRDHUP_BITS != 0)
            },
{
    let mut r: Vec<Fired> = Vec::new();
    let mut i: usize = 0;
    while i < pairs.len()
        invariant
            i <= pairs@.len(),
            r@.len() == i,
            forall|k: int|
                0 <= k < i ==> {
                    &&& (#[trigger] r@[k]).spec_fd() == pairs@[k].0 as i32
                    &&& r@[k].spec_evset().spec_readable() == (pairs@[k].1 & EPOLLIN_BITS != 0)
                    &&& r@[k].spec_evset().spec_writable() == (pairs@[k].1 & EPOLLOUT_BITS != 0)
                    &&& r@[k].spec_evset().spec_error() == (pairs@[k].1 & EPOLLERR_BITS != 0)
                    &&& r@[k].spec_evset().spec_hup() == (pairs@[k].1 & EPOLLHUP_BITS != 0
                        || pairs@[k].1 & EPOLLRDHUP_BITS != 0)
                },
        decreases pairs@.len() - i,
    {
        let (data, bits) = pairs[i];
        let fd = #[verifier::truncate] (data as i32);
        let evset = evset_from_epoll(bits);
        r.push(Fired { fd, evset });
        i = i + 1;
    }
    r
}

/// An iterator over the events fired by one poll; it yields the kernel's
/// entries in order, consuming the buffer.
pub struct IterFired {
    items: Vec<Fired>,
    pos: usize,
}

impl IterFired {
    /// The events not yet yielded.
    pub closed spec fn spec_remaining(&self) -> Seq<Fired> {
        self.items@.skip(self.pos as int)
    }

    /// Well-formedness of the walk.
    pub closed spec fn wf(&self) -> bool {
        self.pos <= self.items@.len()
    }

    /// The next fired event, or `None` once all are yielded.
    pub fn next(&mut self) -> (r: Option<Fired>)
        requires
            old(self).wf(),
        ensures
            final(self).wf(),
            r matches Some(f) ==> old(self).spec_remaining().len() > 0 && f == old(
                self,
            ).spec_remaining()[0] && final(self).spec_remaining() == old(
                self,
            ).spec_remaining().skip(1),
            r is None ==> old(self).spec_remaining().len() == 0 && *final(self) == *old(self),
    {
        if self.pos < self.items.len() {
            let f = self.items[self.pos];
            self.pos = self.pos + 1;
            proof {
                assert(self.items@.skip(self.pos as int) =~= self.items@.skip(
                    self.pos as int - 1,
                ).skip(1));
            }
            Some(f)
        } else {
            None
        }
    }

    /// How many events remain.
    pub fn len(&self) -> (r: usize)
        requires
            self.wf(),
        ensures
            r == self.spec_remaining().len(),
    {
        self.items.len() - self.pos
    }

    /// How many events remain, consuming the walk.
    pub fn count(self) -> (r: usize)
        requires
            self.wf(),
        ensures
            r == self.spec_remaining().len(),
    {
        self.len()
    }
}

/// A readiness selector over a kernel `epoll` instance.
///
/// The registration set — which descriptor is armed, with which mask — is
/// mirrored in the selector: each descriptor appears at most once, until it
/// is deregistered or the selector is dropped. What one poll reports is
/// admitted against this mirror, so every fired event provably names a
/// registered descriptor and carries only conditions that registration
/// asked for, beside `Error` and `Hup`, which are always reported. The
/// descriptors themselves are the caller's resources: registration does
/// not own them.
pub struct Selector {
    epfd: i32,
    registered: Vec<(i32, EventSet)>,
}

/// Whether a registration set holds each descriptor at most once.
pub open spec fn spec_entries_unique(entries: Seq<(i32, EventSet)>) -> bool {
    forall|i: int, j: int|
        0 <= i < j < entries.len() ==> (#[trigger] entries[i]).0 != (#[trigger] entries[j]).0
}

/// Whether the registration set `entries` admits the fired event `f`: the
/// event's descriptor is registered; its `Readable` and `Writable`
/// conditions lie within that registration's interest (`Error` and `Hup`
/// are always admitted); and at least one condition holds.
pub open spec fn spec_admits(entries: Seq<(i32, EventSet)>, f: Fired) -> bool {
    &&& exists|i: int|
        0 <= i < entries.len() && ((#[trigger] entries[i]).0 as int == f.spec_fd()) && (
        f.spec_evset().spec_readable() ==> entries[i].1.spec_readable()) && (
        f.spec_evset().spec_writable() ==> entries[i].1.spec_writable())
    &&& (f.spec_evset().spec_readable() || f.spec_evset().spec_writable()
        || f.spec_evset().spec_error() || f.spec_evset().spec_hup())
}

impl Selector {
    /// The registration set: each armed descriptor with its mask, in order
    /// of arming.
    pub closed spec fn spec_entries(&self) -> Seq<(i32, EventSet)> {
        self.registered@
    }

    /// Whether descriptor `fd` is currently registered.
    pub open spec fn spec_registered(&self, fd: i32) -> bool {
        exists|i: int|
            0 <= i < self.spec_entries().len() && (#[trigger] self.spec_entries()[i]).0 == fd
    }

    /// Whether descriptor `fd` is currently registered with the mask `m`.
    pub open spec fn spec_registered_with(&self, fd: i32, m: EventSet) -> bool {
        exists|i: int|
            0 <= i < self.spec_entries().len() && (#[trigger] self.spec_entries()[i]) == (fd, m)
    }

    /// Well-formedness: a plausible kernel handle, and no descriptor
    /// registered twice.
    pub closed spec fn wf(&self) -> bool {
        &&& self.epfd >= 0
        &&& spec_entries_unique(self.spec_entries())
    }

    /// Creates a selector with a fresh kernel instance and no
    /// registrations.
    pub fn new() -> (r: Result<Selector, SysError>)
        ensures
            r matches Ok(s) ==> s.wf() && s.spec_entries() == Seq::<(i32, EventSet)>::empty(),
            r matches Err(e) ==> e is Os,
    {
        match sys_epoll_create() {
            Ok(epfd) => Ok(Selector { epfd, registered: Vec::new() }),
            Err(e) => Err(SysError::Os(e)),
        }
    }

    /// The index of descriptor `fd` in the mirror, if it is registered.
    fn find_entry(&self, fd: i32) -> (r: Option<usize>)
        ensures
            r matches Some(i) ==> i < self.spec_entries().len() && self.spec_entries()[
                i as int
            ].0 == fd,
            r is None ==> !self.spec_registered(fd),
    {
        let mut i: usize = 0;
        while i < self.registered.len()
            invariant
                i <= self.spec_entries().len(),
                forall|j: int| 0 <= j < i ==> (#[trigger] self.spec_entries()[j]).0 != fd,
            decreases self.spec_entries().len() - i,
        {
            if self.registered[i].0 == fd {
                return Some(i);
            }
            i = i + 1;
        }
        None
    }

    /// Records in the mirror that `fd` is armed with `evset`: its entry is
    /// updated if present, added otherwise.
    fn record_arm(&mut self, fd: i32, evset: EventSet)
        requires
            old(self).wf(),
        ensures
            final(self).wf(),
            final(self).spec_registered_with(fd, evset),
            forall|g: i32|
                #[trigger] final(self).spec_registered(g) == (old(self).spec_registered(g) || g
                    == fd),
            forall|g: i32, m: EventSet|
                g != fd ==> #[trigger] final(self).spec_registered_with(g, m) == old(
                    self,
                ).spec_registered_with(g, m),
    {
        let ghost pre = self.spec_entries();
        match self.find_entry(fd) {
            Some(i) => {
                self.registered[i] = (fd, evset);
                proof {
                    let post = self.spec_entries();
                    assert(post == pre.update(i as int, (fd, evset)));
                    assert(self.spec_registered_with(fd, evset)) by {
                        assert(post[i as int] == (fd, evset));
                    }
                    assert forall|g: i32|
                        #[trigger] self.spec_registered(g) == (old(self).spec_registered(g) || g
                            == fd) by {
                        if self.spec_registered(g) {
                            let j = choose|j: int| 0 <= j < post.len() && post[j].0 == g;
                            assert(pre[j].0 == g || g == fd);
                        }
                        if g == fd {
                            assert(post[i as int].0 == g);
                        } else if old(self).spec_registered(g) {
                            let j = choose|j: int| 0 <= j < pre.len() && pre[j].0 == g;
                            assert(j != i);
                            assert(post[j].0 == g);
                        }
                    }
                    assert forall|g: i32, m: EventSet|
                        g != fd implies #[trigger] self.spec_registered_with(g, m) == old(
                        self,
                    ).spec_registered_with(g, m) by {
                        if self.spec_registered_with(g, m) {
                            let j = choose|j: int| 0 <= j < post.len() && post[j] == (g, m);
                            assert(j != i);
                            assert(pre[j] == (g, m));
                        }
                        if old(self).spec_registered_with(g, m) {
                            let j = choose|j: int| 0 <= j < pre.len() && pre[j] == (g, m);
                            assert(j != i);
                            assert(post[j] == (g, m));
                        }
                    }
                }
            },
            None => {
                self.registered.push((fd, evset));
                proof {
                    let post = self.spec_entries();
                    assert(post == pre.push((fd, evset)));
                    assert(self.spec_registered_with(fd, evset)) by {
                        assert(post[pre.len() as int] == (fd, evset));
                    }
                    assert forall|a: int, b: int|
                        0 <= a < b < post.len() implies (#[trigger] post[a]).0 != (
                    #[trigger] post[b]).0 by {
                        if b == pre.len() as int {
                            assert(pre[a].0 != fd);
                        }
                    }
                    assert forall|g: i32|
                        #[trigger] self.spec_registered(g) == (old(self).spec_registered(g) || g
                            == fd) by {
                        if self.spec_registered(g) {
                            let j = choose|j: int| 0 <= j < post.len() && post[j].0 == g;
                            assert(j == pre.len() as int || pre[j].0 == g);
                        }
                        if g == fd {
                            assert(post[pre.len() as int].0 == g);
                        } else if old(self).spec_registered(g) {
                            let j = choose|j: int| 0 <= j < pre.len() && pre[j].0 == g;
                            assert(post[j].0 == g);
                        }
                    }
                    assert forall|g: i32, m: EventSet|
                        g != fd implies #[trigger] self.spec_registered_with(g, m) == old(
                        self,
                    ).spec_registered_with(g, m) by {
                        if self.spec_registered_with(g, m) {
                            let j = choose|j: int| 0 <= j < post.len() && post[j] == (g, m);
                            assert(j != pre.len() as int);
                            assert(pre[j] == (g, m));
                        }
                        if old(self).spec_registered_with(g, m) {
                            let j = choose|j: int| 0 <= j < pre.len() && pre[j] == (g, m);
                            assert(post[j] == (g, m));
                        }
                    }
                }
            },
        }
    }

    /// Records in the mirror that `fd` is no longer armed.
    fn record_disarm(&mut self, fd: i32)
        requires
            old(self).wf(),
        ensures
            final(self).wf(),
            !final(self).spec_registered(fd),
            forall|g: i32|
                #[trigger] final(self).spec_registered(g) == (old(self).spec_registered(g) && g
                    != fd),
            forall|g: i32, m: EventSet|
                g != fd ==> #[trigger] final(self).spec_registered_with(g, m) == old(
                    self,
                ).spec_registered_with(g, m),
    {
        let ghost pre = self.spec_entries();
        match self.find_entry(fd) {
            Some(i) => {
                self.registered.remove(i);
                proof {
                    let post = self.spec_entries();
                    assert(post == pre.remove(i as int));
                    assert forall|j: int| 0 <= j < post.len() implies post[j] == (if j < i {
                        pre[j]
                    } else {
                        pre[j + 1]
                    }) by {}
                    assert forall|a: int, b: int|
                        0 <= a < b < post.len() implies (#[trigger] post[a]).0 != (
                    #[trigger] post[b]).0 by {}
                    assert forall|j: int| 0 <= j < post.len() implies (#[trigger] post[j]).0
                        != fd by {
                        if j < i {
                            assert(post[j] == pre[j]);
                        } else {
                            assert(post[j] == pre[j + 1]);
                        }
                    }
                    assert forall|g: i32|
                        #[trigger] self.spec_registered(g) == (old(self).spec_registered(g) && g
                            != fd) by {
                        if self.spec_registered(g) {
                            let j = choose|j: int| 0 <= j < post.len() && post[j].0 == g;
                            if j < i {
                                assert(pre[j].0 == g);
                            } else {
                                assert(pre[j + 1].0 == g);
                            }
                            assert(g != fd);
                        }
                        if old(self).spec_registered(g) && g != fd {
                            let j = choose|j: int| 0 <= j < pre.len() && pre[j].0 == g;
                            assert(j != i);
                            if j < i {
                                assert(post[j].0 == g);
                            } else {
                                assert(post[j - 1].0 == g);
                            }
                        }
                    }
                    assert forall|g: i32, m: EventSet|
                        g != fd implies #[trigger] self.spec_registered_with(g, m) == old(
                        self,
                    ).spec_registered_with(g, m) by {
                        if self.spec_registered_with(g, m) {
                            let j = choose|j: int| 0 <= j < post.len() && post[j] == (g, m);
                            if j < i {
                                assert(pre[j] == (g, m));
                            } else {
                                assert(pre[j + 1] == (g, m));
                            }
                        }
                        if old(self).spec_registered_with(g, m) {
                            let j = choose|j: int| 0 <= j < pre.len() && pre[j] == (g, m);
                            assert(j != i);
                            if j < i {
                                assert(post[j] == (g, m));
                            } else {
                                assert(post[j - 1] == (g, m));
                            }
                        }
                    }
                }
            },
            None => {},
        }
    }

    /// Arms `fd` for the events in `evset`. The descriptor must not be
    /// registered yet: the kernel refuses a second registration, and the
    /// error is handed back with nothing changed.
    pub fn register(&mut self, fd: i32, evset: EventSet) -> (r: Result<(), SysError>)
        requires
            old(self).wf(),
        ensures
            final(self).wf(),
            r matches Err(e) ==> e is Os && final(self).spec_entries() == old(self).spec_entries(),
            r is Ok ==> final(self).spec_registered_with(fd, evset),
            r is Ok ==> (forall|g: i32|
                #[trigger] final(self).spec_registered(g) == (old(self).spec_registered(g) || g
                    == fd)),
            r is Ok ==> (forall|g: i32, m: EventSet|
                g != fd ==> #[trigger] final(self).spec_registered_with(g, m) == old(
                    self,
                ).spec_registered_with(g, m)),
    {
        let bits = evset_to_epoll(evset);
        match sys_epoll_add(self.epfd, fd, bits, fd as u64) {
            Ok(()) => {
                self.record_arm(fd, evset);
                Ok(())
            },
            Err(e) => Err(SysError::Os(e)),
        }
    }

    /// Changes the mask of an already-registered `fd` to `evset`; an empty
    /// mask is a deregistration. The kernel refuses an unknown descriptor,
    /// and the error is handed back with nothing changed.
    pub fn reregister(&mut self, fd: i32, evset: EventSet) -> (r: Result<(), SysError>)
        requires
            old(self).wf(),
        ensures
            final(self).wf(),
            r matches Err(e) ==> e is Os && final(self).spec_entries() == old(self).spec_entries(),
            evset.spec_bits() != 0 ==> (r is Ok ==> final(self).spec_registered_with(fd, evset)),
            evset.spec_bits() != 0 ==> (r is Ok ==> (forall|g: i32|
                #[trigger] final(self).spec_registered(g) == (old(self).spec_registered(g) || g
                    == fd))),
            evset.spec_bits() == 0 ==> (r is Ok ==> (forall|g: i32|
                #[trigger] final(self).spec_registered(g) == (old(self).spec_registered(g) && g
                    != fd))),
            r is Ok ==> (forall|g: i32, m: EventSet|
                g != fd ==> #[trigger] final(self).spec_registered_with(g, m) == old(
                    self,
                ).spec_registered_with(g, m)),
    {
        if evset.is_empty() {
            // An empty mask asks for nothing: equivalent to deregistration.
            self.deregister(fd)
        } else {
            let bits = evset_to_epoll(evset);
            match sys_epoll_mod(self.epfd, fd, bits, fd as u64) {
                Ok(()) => {
                    self.record_arm(fd, evset);
                    Ok(())
                },
                Err(e) => Err(SysError::Os(e)),
            }
        }
    }

    /// Stops watching `fd`. The kernel refuses an unknown descriptor, and
    /// the error is handed back with nothing changed.
    pub fn deregister(&mut self, fd: i32) -> (r: Result<(), SysError>)
        requires
            old(self).wf(),
        ensures
            final(self).wf(),
            r matches Err(e) ==> e is Os && final(self).spec_entries() == old(self).spec_entries(),
            r is Ok ==> !final(self).spec_registered(fd),
            r is Ok ==> (forall|g: i32|
                #[trigger] final(self).spec_registered(g) == (old(self).spec_registered(g) && g
                    != fd)),
            r is Ok ==> (forall|g: i32, m: EventSet|
                g != fd ==> #[trigger] final(self).spec_registered_with(g, m) == old(
                    self,
                ).spec_registered_with(g, m)),
    {
        match sys_epoll_del(self.epfd, fd) {
            Ok(()) => {
                self.record_disarm(fd);
                Ok(())
            },
            Err(e) => Err(SysError::Os(e)),
        }
    }

    /// Keeps, of the kernel's fired events, those the registration set
    /// admits: the descriptor must be registered, and the reported
    /// conditions are cut down to its interest plus `Error` and `Hup`; an
    /// event with nothing left is dropped.
    fn admit_fireds(&self, evs: &Vec<Fired>) -> (r: Vec<Fired>)
        requires
            self.wf(),
        ensures
            r@.len() <= evs@.len(),
            forall|k: int|
                0 <= k < r@.len() ==> spec_admits(self.spec_entries(), #[trigger] r@[k]),
    {
        let mut r: Vec<Fired> = Vec::new();
        let mut k: usize = 0;
        while k < evs.len()
            invariant
                self.wf(),
                k <= evs@.len(),
                r@.len() <= k,
                forall|j: int|
                    0 <= j < r@.len() ==> spec_admits(self.spec_entries(), #[trigger] r@[j]),
            decreases evs@.len() - k,
        {
            let f = evs[k];
            match self.find_entry(f.fd()) {
                Some(i) => {
                    let interest = self.registered[i].1;
                    let m = admitted_mask(f.evset(), interest);
                    if !m.is_empty() {
                        let kept = Fired { fd: f.fd(), evset: m };
                        proof {
                            crate::event::lemma_nonempty_has_condition(m);
                            assert((self.spec_entries()[i as int]).0 as int == kept.spec_fd());
                        }
                        r.push(kept);
                    }
                },
                None => {},
            }
            k = k + 1;
        }
        r
    }

    /// Blocks until a registered descriptor is ready, with no time bound,
    /// and hands back an iterator over the fired events; every event names
    /// a registered descriptor and holds only admitted conditions.
    pub fn poll(&mut self) -> (r: Result<IterFired, SysError>)
        requires
            old(self).wf(),
        ensures
            final(self).wf(),
            *final(self) == *old(self),
            r matches Ok(it) ==> it.wf() && it.spec_remaining().len() <= MAX_EVENTS,
            r matches Ok(it) ==> (forall|k: int|
                0 <= k < it.spec_remaining().len() ==> spec_admits(
                    old(self).spec_entries(),
                    #[trigger] it.spec_remaining()[k],
                )),
            r matches Err(e) ==> e is Os,
    {
        self.poll_timeout(-1)
    }

    /// Blocks until a registered descriptor is ready or `timeout_ms`
    /// milliseconds pass (a negative timeout means no bound), and hands
    /// back an iterator over the fired events: each names a registered
    /// descriptor and holds only the conditions its registration asked for,
    /// beside `Error` and `Hup`, which always ride along. Interruption by a
    /// signal is retried transparently.
    pub fn poll_timeout(&mut self, timeout_ms: i64) -> (r: Result<IterFired, SysError>)
        requires
            old(self).wf(),
        ensures
            final(self).wf(),
            *final(self) == *old(self),
            r matches Ok(it) ==> it.wf() && it.spec_remaining().len() <= MAX_EVENTS,
            r matches Ok(it) ==> (forall|k: int|
                0 <= k < it.spec_remaining().len() ==> spec_admits(
                    old(self).spec_entries(),
                    #[trigger] it.spec_remaining()[k],
                )),
            r matches Err(e) ==> e is Os,
    {
        // A negative timeout means no bound; a positive one is clamped to
        // the kernel's millisecond word instead of being truncated by it.
        let tm: i32 = if timeout_ms < 0 {
            -1
        } else if timeout_ms > 0x7fff_ffff {
            0x7fff_ffff
        } else {
            timeout_ms as i32
        };
        match sys_epoll_wait(self.epfd, MAX_EVENTS, tm) {
            Ok(pairs) => {
                let items = fireds_from_events(&pairs);
                let admitted = self.admit_fireds(&items);
                Ok(IterFired { items: admitted, pos: 0 })
            },
            Err(e) => Err(SysError::Os(e)),
        }
    }

    /// The selector's kernel handle.
    pub fn as_raw_fd(&self) -> (r: i32)
        requires
            self.wf(),
        ensures
            r >= 0,
    {
        self.epfd
    }
}

/// The conditions of a fired event that a registration with `interest`
/// admits: `Readable` and `Writable` only when asked for, `Error` and
/// `Hup` always.
pub fn admitted_mask(fired: EventSet, interest: EventSet) -> (r: EventSet)
    ensures
        r.spec_readable() == (fired.spec_readable() && interest.spec_readable()),
        r.spec_writable() == (fired.spec_writable() && interest.spec_writable()),
        r.spec_error() == fired.spec_error(),
        r.spec_hup() == fired.spec_hup(),
        r.spec_bits() <= 0xF,
{
    let mut r = EventSet::empty();
    if fired.is_readable() && interest.is_readable() {
        proof {
            crate::event::lemma_union_stays_low(r.spec_bits(), 0b0001);
        }
        r.insert(EventSet::readable());
    }
    if fired.is_writable() && interest.is_writable() {
        proof {
            crate::event::lemma_union_stays_low(r.spec_bits(), 0b0010);
        }
        r.insert(EventSet::writable());
    }
    if fired.is_error() {
        proof {
            crate::event::lemma_union_stays_low(r.spec_bits(), 0b0100);
        }
        r.insert(EventSet::error());
    }
    if fired.is_hup() {
        proof {
            crate::event::lemma_union_stays_low(r.spec_bits(), 0b1000);
        }
        r.insert(EventSet::hup());
    }
    r
}

impl Drop for Selector {
    /// Relies on `nix::unistd::close`: the kernel handle is closed when the
    /// selector goes away.
    #[verifier::external_body]
    fn drop(&mut self)
        opens_invariants none
        no_unwind
    {
        let _ = nix::unistd::close(self.epfd);
    }
}

/// Relies on `nix::sys::epoll::epoll_create`: creates a kernel `epoll`
/// instance and hands back its descriptor, non-negative on success.
#[verifier::external_body]
fn sys_epoll_create() -> (r: Result<i32, i32>)
    ensures
        r matches Ok(fd) ==> fd >= 0,
{
    match nix::sys::epoll::epoll_create() {
        Ok(fd) => Ok(fd),
        Err(e) => Err(e as i32),
    }
}

/// Relies on `nix::sys::epoll::epoll_ctl` with `EpollCtlAdd`: arms `fd` on
/// the instance `epfd` for the events in `events`, with `data` carried in
/// the event's data word; a descriptor already present is refused with
/// `EEXIST`.
#[verifier::external_body]
fn sys_epoll_add(epfd: i32, fd: i32, events: i32, data: u64) -> (r: Result<(), i32>)
{
    let flags = nix::sys::epoll::EpollFlags::from_bits_truncate(events);
    let mut ev = nix::sys::epoll::EpollEvent::new(flags, data);
    match nix::sys::epoll::epoll_ctl(epfd, nix::sys::epoll::EpollOp::EpollCtlAdd, fd, &mut ev) {
        Ok(()) => Ok(()),
        Err(e) => Err(e as i32),
    }
}

/// Relies on `nix::sys::epoll::epoll_ctl` with `EpollCtlMod`: changes the
/// events `fd` is armed for on the instance `epfd`; a descriptor not
/// present is refused with `ENOENT`.
#[verifier::external_body]
fn sys_epoll_mod(epfd: i32, fd: i32, events: i32, data: u64) -> (r: Result<(), i32>)
{
    let flags = nix::sys::epoll::EpollFlags::from_bits_truncate(events);
    let mut ev = nix::sys::epoll::EpollEvent::new(flags, data);
    match nix::sys::epoll::epoll_ctl(epfd, nix::sys::epoll::EpollOp::EpollCtlMod, fd, &mut ev) {
        Ok(()) => Ok(()),
        Err(e) => Err(e as i32),
    }
}

/// Relies on `nix::sys::epoll::epoll_ctl` with `EpollCtlDel`: stops
/// watching `fd` on the instance `epfd`; a descriptor not present is
/// refused with `ENOENT`.
#[verifier::external_body]
fn sys_epoll_del(epfd: i32, fd: i32) -> (r: Result<(), i32>)
{
    let ev = Option::<&mut nix::sys::epoll::EpollEvent>::None;
    match nix::sys::epoll::epoll_ctl(epfd, nix::sys::epoll::EpollOp::EpollCtlDel, fd, ev) {
        Ok(()) => Ok(()),
        Err(e) => Err(e as i32),
    }
}

/// Relies on `nix::sys::epoll::epoll_wait`: waits on the instance `epfd`
/// until at least one armed descriptor is ready or the timeout passes, and
/// reports at most `max` fired events, each as the registered data word and
/// the fired flag bits (the kernel reports only the documented epoll flags,
/// which nix checks). A call interrupted by a signal is retried; any other
/// failure hands back the `errno` value.
#[verifier::external_body]
fn sys_epoll_wait(epfd: i32, max: usize, timeout_ms: i32) -> (r: Result<Vec<(u64, i32)>, i32>)
    ensures
        r matches Ok(v) ==> v@.len() <= max,
{
    let mut evs = vec![nix::sys::epoll::EpollEvent::empty(); max];
    loop {
        match nix::sys::epoll::epoll_wait(epfd, &mut evs, timeout_ms as isize) {
            Ok(n) => return Ok(evs[..n].iter().map(|e| (e.data(), e.events().bits())).collect()),
            Err(nix::errno::Errno::EINTR) => (),
            Err(e) => return Err(e as i32),
        }
    }
}

} // verus!
