//! The portable readiness selector over the `select` system call.
//!
//! Registration is pure bit arithmetic on two descriptor sets — one for
//! readable interest, one for writable — and is verified end to end against
//! a membership model. Only the `select` call itself is trusted; what it
//! returns is folded back into the same verified model, so every fired
//! descriptor provably comes out of the registered sets.

use vstd::prelude::*;

use crate::SysError;
use crate::event::EventSet;
use crate::sys::select::{fd_set, FD_SETSIZE};

verus! {

/// A set of file descriptors monitored for readiness, backed by a pair of
/// `select` descriptor sets.
pub struct Selector {
    maxfd: i32,
    rfds: fd_set,
    wfds: fd_set,
}

/// A fired readiness event: a descriptor and the conditions that hold.
#[derive(Clone, Copy, PartialEq, Eq, Structural, Debug)]
pub struct Fired {
    fd: i32,
    evset: EventSet,
}

impl Fired {
    /// The descriptor the event is about.
    pub fn fd(&self) -> (r: i32)
        ensures
            r == self.spec_fd(),
    {
        self.fd
    }

    /// The conditions that fired.
    pub fn evset(&self) -> (r: EventSet)
        ensures
            r == self.spec_evset(),
    {
        self.evset
    }

    /// The descriptor, abstractly.
    pub closed spec fn spec_fd(&self) -> int {
        self.fd as int
    }

    /// The conditions, abstractly.
    pub closed spec fn spec_evset(&self) -> EventSet {
        self.evset
    }
}

impl Selector {
    /// Whether descriptor `fd` is registered for readable interest.
    pub closed spec fn spec_reads(&self, fd: int) -> bool {
        self.rfds.spec_contains(fd)
    }

    /// Whether descriptor `fd` is registered for writable interest.
    pub closed spec fn spec_writes(&self, fd: int) -> bool {
        self.wfds.spec_contains(fd)
    }

    /// Well-formedness: both sets are intact and no registered descriptor
    /// exceeds the tracked maximum.
    pub closed spec fn wf(&self) -> bool {
        &&& self.rfds.wf()
        &&& self.wfds.wf()
        &&& 0 <= self.maxfd < FD_SETSIZE
        &&& forall|g: int|
            (self.spec_reads(g) || self.spec_writes(g)) ==> 0 <= g <= self.maxfd as int
    }

    /// Creates an empty selector.
    pub fn new() -> (r: Result<Selector, SysError>)
        ensures
            r is Ok,
            r matches Ok(s) ==> s.wf() && (forall|g: int|
                !(#[trigger] s.spec_reads(g)) && !s.spec_writes(g)),
    {
        Ok(Selector { maxfd: 0, rfds: fd_set::new(), wfds: fd_set::new() })
    }

    /// Registers descriptor `fd`: its bit is raised in the readable set,
    /// the writable set, or both, according to `evset`. Other conditions of
    /// `evset` are ignored — `select` can report nothing else.
    pub fn register(&mut self, fd: i32, evset: EventSet) -> (r: Result<(), SysError>)
        requires
            old(self).wf(),
            0 <= fd < FD_SETSIZE,
        ensures
            final(self).wf(),
            r is Ok,
            forall|g: int|
                #[trigger] final(self).spec_reads(g) == (old(self).spec_reads(g) || (g == fd
                    && evset.spec_readable())),
            forall|g: int|
                #[trigger] final(self).spec_writes(g) == (old(self).spec_writes(g) || (g == fd
                    && evset.spec_writable())),
    {
        if evset.is_readable() {
            self.rfds.set(fd);
            if fd > self.maxfd {
                self.maxfd = fd;
            }
        }
        if evset.is_writable() {
            self.wfds.set(fd);
            if fd > self.maxfd {
                self.maxfd = fd;
            }
        }
        proof {
            assert forall|g: int| (self.spec_reads(g) || self.spec_writes(g)) implies 0 <= g
                <= self.maxfd as int by {
                assert(self.spec_reads(g) ==> old(self).spec_reads(g) || g == fd as int);
                assert(self.spec_writes(g) ==> old(self).spec_writes(g) || g == fd as int);
                if old(self).spec_reads(g) || old(self).spec_writes(g) {
                    assert(0 <= g <= old(self).maxfd as int);
                }
            }
        }
        Ok(())
    }

    /// Changes the interest of an already-registered descriptor: an empty
    /// mask is a deregistration, anything else a fresh registration.
    pub fn reregister(&mut self, fd: i32, evset: EventSet) -> (r: Result<(), SysError>)
        requires
            old(self).wf(),
            0 <= fd < FD_SETSIZE,
        ensures
            final(self).wf(),
            r is Ok,
            (evset.spec_readable() || evset.spec_writable()) ==> forall|g: int|
                #[trigger] final(self).spec_reads(g) == (old(self).spec_reads(g) || (g == fd
                    && evset.spec_readable())),
            (evset.spec_readable() || evset.spec_writable()) ==> forall|g: int|
                #[trigger] final(self).spec_writes(g) == (old(self).spec_writes(g) || (g == fd
                    && evset.spec_writable())),
            !(evset.spec_readable() || evset.spec_writable()) ==> forall|g: int|
                #[trigger] final(self).spec_reads(g) == (old(self).spec_reads(g) && g != fd),
            !(evset.spec_readable() || evset.spec_writable()) ==> forall|g: int|
                #[trigger] final(self).spec_writes(g) == (old(self).spec_writes(g) && g != fd),
    {
        if evset.is_readable() || evset.is_writable() {
            self.register(fd, evset)
        } else {
            self.deregister(fd)
        }
    }

    /// Deregisters descriptor `fd`: its bit is cleared in both sets, and if
    /// it was the highest tracked descriptor the maximum is rescanned.
    pub fn deregister(&mut self, fd: i32) -> (r: Result<(), SysError>)
        requires
            old(self).wf(),
            0 <= fd < FD_SETSIZE,
        ensures
            final(self).wf(),
            r is Ok,
            forall|g: int|
                #[trigger] final(self).spec_reads(g) == (old(self).spec_reads(g) && g != fd),
            forall|g: int|
                #[trigger] final(self).spec_writes(g) == (old(self).spec_writes(g) && g != fd),
    {
        self.rfds.unset(fd);
        self.wfds.unset(fd);
        if fd == self.maxfd {
            let mr = find_max(&self.rfds, self.maxfd);
            let mw = find_max(&self.wfds, self.maxfd);
            self.maxfd = if mr > mw {
                mr
            } else {
                mw
            };
        }
        proof {
            assert forall|g: int| (self.spec_reads(g) || self.spec_writes(g)) implies 0 <= g
                <= self.maxfd as int by {
                assert(self.spec_reads(g) ==> old(self).spec_reads(g) && g != fd as int);
                assert(self.spec_writes(g) ==> old(self).spec_writes(g) && g != fd as int);
                if old(self).spec_reads(g) || old(self).spec_writes(g) {
                    assert(0 <= g <= old(self).maxfd as int);
                }
            }
        }
        Ok(())
    }

    /// Blocks until a registered descriptor is ready, with no time bound.
    pub fn poll(&mut self) -> (r: Result<Iter, SysError>)
        requires
            old(self).wf(),
        ensures
            final(self).wf(),
            *final(self) == *old(self),
            r matches Ok(it) ==> it.wf() && it.spec_cur() == 0,
            r matches Ok(it) ==> (forall|g: int|
                (#[trigger] it.spec_reads(g)) ==> old(self).spec_reads(g)),
            r matches Ok(it) ==> (forall|g: int|
                (#[trigger] it.spec_writes(g)) ==> old(self).spec_writes(g)),
            r matches Err(e) ==> e is Os,
    {
        self.poll_timeout(-1)
    }

    /// Blocks until a registered descriptor is ready or `timeout_ms`
    /// milliseconds pass (a negative timeout means no bound), and hands back
    /// an iterator over the fired events. Every fired descriptor was
    /// registered, for the condition it fires with; interruption by a signal
    /// is retried transparently.
    pub fn poll_timeout(&mut self, timeout_ms: i64) -> (r: Result<Iter, SysError>)
        requires
            old(self).wf(),
        ensures
            final(self).wf(),
            *final(self) == *old(self),
            r matches Ok(it) ==> it.wf() && it.spec_cur() == 0,
            r matches Ok(it) ==> (forall|g: int|
                (#[trigger] it.spec_reads(g)) ==> old(self).spec_reads(g)),
            r matches Ok(it) ==> (forall|g: int|
                (#[trigger] it.spec_writes(g)) ==> old(self).spec_writes(g)),
            r matches Err(e) ==> e is Os,
    {
        let rlist = collect_fds(&self.rfds, self.maxfd);
        let wlist = collect_fds(&self.wfds, self.maxfd);
        // A negative timeout means no bound; a positive one is clamped to
        // the widest span the kernel structures take without overflow.
        let tm = if timeout_ms < 0 {
            None
        } else if timeout_ms > 0x7fff_ffff {
            Some(0x7fff_ffffi64)
        } else {
            Some(timeout_ms)
        };
        match sys_select(self.maxfd + 1, &rlist, &wlist, tm) {
            Ok((ro, wo)) => {
                let mut rready = fd_set::new();
                let mut wready = fd_set::new();
                let ghost rl = rlist@;
                let ghost wl = wlist@;
                let mut i: usize = 0;
                while i < ro.len()
                    invariant
                        self.wf(),
                        rready.wf(),
                        i <= ro@.len(),
                        forall|k: int| 0 <= k < ro@.len() ==> rl.contains(#[trigger] ro@[k]),
                        forall|k: int|
                            0 <= k < rl.len() ==> self.spec_reads(#[trigger] rl[k] as int) && 0
                                <= rl[k] < FD_SETSIZE,
                        forall|g: int|
                            (#[trigger] rready.spec_contains(g)) ==> self.spec_reads(g),
                    decreases ro@.len() - i,
                {
                    let fd = ro[i];
                    proof {
                        // Membership in the registered list bounds the
                        // descriptor and carries its readable interest.
                        let k = choose|k: int| 0 <= k < rl.len() && rl[k] == ro@[i as int];
                        assert(0 <= fd < FD_SETSIZE && self.spec_reads(fd as int));
                    }
                    rready.set(fd);
                    i = i + 1;
                }
                let mut i: usize = 0;
                while i < wo.len()
                    invariant
                        self.wf(),
                        wready.wf(),
                        i <= wo@.len(),
                        forall|k: int| 0 <= k < wo@.len() ==> wl.contains(#[trigger] wo@[k]),
                        forall|k: int|
                            0 <= k < wl.len() ==> self.spec_writes(#[trigger] wl[k] as int) && 0
                                <= wl[k] < FD_SETSIZE,
                        forall|g: int|
                            (#[trigger] wready.spec_contains(g)) ==> self.spec_writes(g),
                    decreases wo@.len() - i,
                {
                    let fd = wo[i];
                    proof {
                        // As above, for writable interest.
                        let k = choose|k: int| 0 <= k < wl.len() && wl[k] == wo@[i as int];
                        assert(0 <= fd < FD_SETSIZE && self.spec_writes(fd as int));
                    }
                    wready.set(fd);
                    i = i + 1;
                }
                Ok(Iter { maxfd: self.maxfd, curfd: 0, rfds: rready, wfds: wready })
            },
            Err(e) => Err(SysError::Os(e)),
        }
    }
}

/// Collects the descriptors of `set` up to `maxfd`, in ascending order.
fn collect_fds(set: &fd_set, maxfd: i32) -> (r: Vec<i32>)
    requires
        set.wf(),
        0 <= maxfd < FD_SETSIZE,
    ensures
        r@.len() <= FD_SETSIZE,
        forall|k: int|
            0 <= k < r@.len() ==> set.spec_contains(#[trigger] r@[k] as int) && 0 <= r@[k]
                < FD_SETSIZE,
        forall|g: int| 0 <= g <= maxfd && set.spec_contains(g) ==> r@.contains(g as i32),
{
    let mut r: Vec<i32> = Vec::new();
    let mut fd: i32 = 0;
    while fd <= maxfd
        invariant
            0 <= fd <= maxfd + 1,
            0 <= maxfd < FD_SETSIZE,
            set.wf(),
            r@.len() <= fd,
            forall|k: int|
                0 <= k < r@.len() ==> set.spec_contains(#[trigger] r@[k] as int) && 0 <= r@[k]
                    < FD_SETSIZE,
            forall|g: int| 0 <= g < fd && set.spec_contains(g) ==> r@.contains(g as i32),
        decreases maxfd + 1 - fd,
    {
        let ghost prev = r@;
        let present = set.is_set(fd);
        if present {
            r.push(fd);
        }
        proof {
            assert forall|g: int| 0 <= g < fd + 1 && set.spec_contains(g) implies r@.contains(
                g as i32,
            ) by {
                if g < fd as int {
                    let k = choose|k: int| 0 <= k < prev.len() && prev[k] == g as i32;
                    assert(r@[k] == g as i32);
                } else {
                    assert(r@[r@.len() - 1] == fd);
                }
            }
        }
        fd = fd + 1;
    }
    r
}

/// Returns the highest descriptor at most `prev_max` in the given set,
/// scanning downward from `prev_max`, or 0 when the set holds none.
fn find_max(set: &fd_set, prev_max: i32) -> (r: i32)
    requires
        set.wf(),
        0 <= prev_max < FD_SETSIZE,
    ensures
        0 <= r <= prev_max,
        forall|g: int| r < g <= prev_max ==> !set.spec_contains(g),
        r == 0 || set.spec_contains(r as int),
{
    let mut i: i32 = prev_max;
    while i > 0
        invariant
            0 <= i <= prev_max,
            prev_max < FD_SETSIZE,
            set.wf(),
            forall|g: int| i < g <= prev_max ==> !set.spec_contains(g),
        decreases i,
    {
        if set.is_set(i) {
            return i;
        }
        i = i - 1;
    }
    0
}

/// Relies on `nix::sys::select::select`: waits until a descriptor of either
/// list is ready or the timeout passes, and reports the ready descriptors;
/// `select` only clears bits it was given, so every reported descriptor
/// comes from the corresponding input list. A call interrupted by a signal
/// is retried with the remaining timeout and the sets rebuilt (their
/// contents are undefined after a failure); any other failure hands back
/// the `errno` value. Descriptors must lie below `FD_SETSIZE` (the set
/// refuses others), and the timeout must be modest: the conversion to the
/// kernel's seconds/microseconds pair rejects values near `i64::MAX`
/// milliseconds.
#[verifier::external_body]
fn sys_select(nfds: i32, rlist: &Vec<i32>, wlist: &Vec<i32>, timeout_ms: Option<i64>) -> (r: Result<
    (Vec<i32>, Vec<i32>),
    i32,
>)
    requires
        forall|k: int| 0 <= k < rlist@.len() ==> 0 <= #[trigger] rlist@[k] < FD_SETSIZE,
        forall|k: int| 0 <= k < wlist@.len() ==> 0 <= #[trigger] wlist@[k] < FD_SETSIZE,
        timeout_ms matches Some(t) ==> 0 <= t <= 0x7fff_ffff,
    ensures
        r matches Ok(ready) ==> (forall|k: int|
            0 <= k < ready.0@.len() ==> rlist@.contains(#[trigger] ready.0@[k])) && (forall|k: int|
            0 <= k < ready.1@.len() ==> wlist@.contains(#[trigger] ready.1@[k])),
{
    let ms = <nix::sys::time::TimeVal as nix::sys::time::TimeValLike>::milliseconds;
    let mut tv = timeout_ms.map(ms);
    loop {
        let mut rs = nix::sys::select::FdSet::new();
        let mut ws = nix::sys::select::FdSet::new();
        rlist.iter().for_each(|fd| rs.insert(*fd));
        wlist.iter().for_each(|fd| ws.insert(*fd));
        match nix::sys::select::select(nfds, &mut rs, &mut ws, None, tv.as_mut()) {
            Ok(_) => return Ok((rs.fds(None).collect(), ws.fds(None).collect())),
            Err(nix::errno::Errno::EINTR) => (),
            Err(e) => return Err(e as i32),
        }
    }
}

/// How many descriptors in `[g, maxfd]` stand ready in either set.
pub open spec fn spec_ready_count(r: fd_set, w: fd_set, maxfd: int, g: int) -> nat
    decreases maxfd + 1 - g,
{
    if g > maxfd {
        0
    } else {
        (if r.spec_contains(g) || w.spec_contains(g) {
            1nat
        } else {
            0nat
        }) + spec_ready_count(r, w, maxfd, g + 1)
    }
}

/// A span with nothing ready contributes nothing to the count.
proof fn lemma_ready_count_skip(r: fd_set, w: fd_set, maxfd: int, a: int, b: int)
    requires
        a <= b <= maxfd + 1,
        forall|g: int| a <= g < b ==> !(#[trigger] r.spec_contains(g)) && !w.spec_contains(g),
    ensures
        spec_ready_count(r, w, maxfd, a) == spec_ready_count(r, w, maxfd, b),
    decreases b - a,
{
    if a < b {
        lemma_ready_count_skip(r, w, maxfd, a + 1, b);
    }
}

/// The count never exceeds the span counted.
proof fn lemma_ready_count_le(r: fd_set, w: fd_set, maxfd: int, g: int)
    requires
        g <= maxfd + 1,
    ensures
        spec_ready_count(r, w, maxfd, g) <= maxfd + 1 - g,
    decreases maxfd + 1 - g,
{
    if g <= maxfd {
        lemma_ready_count_le(r, w, maxfd, g + 1);
    }
}

/// An iterator over the events fired by one poll of the `select` backend:
/// it walks the descriptors from 0 to `maxfd` and yields each that is ready,
/// with the conditions that hold for it.
pub struct Iter {
    maxfd: i32,
    curfd: i32,
    rfds: fd_set,
    wfds: fd_set,
}

impl Iter {
    /// Whether descriptor `fd` fired as readable.
    pub closed spec fn spec_reads(&self, fd: int) -> bool {
        self.rfds.spec_contains(fd)
    }

    /// Whether descriptor `fd` fired as writable.
    pub closed spec fn spec_writes(&self, fd: int) -> bool {
        self.wfds.spec_contains(fd)
    }

    /// The walk's position.
    pub closed spec fn spec_cur(&self) -> int {
        self.curfd as int
    }

    /// How many events remain to be yielded: the ready descriptors not yet
    /// walked past.
    pub closed spec fn spec_count(&self) -> nat {
        spec_ready_count(self.rfds, self.wfds, self.spec_maxfd(), self.spec_cur())
    }

    /// The walk's bound.
    pub closed spec fn spec_maxfd(&self) -> int {
        self.maxfd as int
    }

    /// Well-formedness of the walk.
    pub closed spec fn wf(&self) -> bool {
        &&& self.rfds.wf()
        &&& self.wfds.wf()
        &&& 0 <= self.maxfd < FD_SETSIZE
        &&& 0 <= self.curfd <= self.maxfd + 1
    }

    /// The next fired event: the lowest ready descriptor not yet yielded,
    /// with `Readable` and `Writable` set exactly as its sets say, or `None`
    /// once the walk is done.
    pub fn next(&mut self) -> (r: Option<Fired>)
        requires
            old(self).wf(),
        ensures
            final(self).wf(),
            final(self).spec_maxfd() == old(self).spec_maxfd(),
            forall|g: int|
                (#[trigger] final(self).spec_reads(g) == old(self).spec_reads(g)) && (
                #[trigger] final(self).spec_writes(g) == old(self).spec_writes(g)),
            r matches Some(f) ==> old(self).spec_count() == final(self).spec_count() + 1,
            r is None ==> old(self).spec_count() == 0,
            r matches Some(f) ==> old(self).spec_cur() <= f.spec_fd() <= old(self).spec_maxfd(),
            r matches Some(f) ==> f.spec_evset().spec_readable() == old(self).spec_reads(
                f.spec_fd(),
            ),
            r matches Some(f) ==> f.spec_evset().spec_writable() == old(self).spec_writes(
                f.spec_fd(),
            ),
            r matches Some(f) ==> !f.spec_evset().spec_error() && !f.spec_evset().spec_hup(),
            r matches Some(f) ==> (old(self).spec_reads(f.spec_fd()) || old(self).spec_writes(
                f.spec_fd(),
            )),
            r matches Some(f) ==> (forall|g: int|
                old(self).spec_cur() <= g < f.spec_fd() ==> !(#[trigger] old(self).spec_reads(g))
                    && !old(self).spec_writes(g)),
            r matches Some(f) ==> final(self).spec_cur() == f.spec_fd() + 1,
            r is None ==> (forall|g: int|
                old(self).spec_cur() <= g <= old(self).spec_maxfd() ==> !(#[trigger] old(
                    self,
                ).spec_reads(g)) && !old(self).spec_writes(g)),
            r is None ==> final(self).spec_cur() == old(self).spec_maxfd() + 1,
    {
        while self.curfd <= self.maxfd
            invariant
                self.wf(),
                old(self).spec_cur() <= self.curfd as int,
                self.maxfd == old(self).maxfd,
                self.rfds == old(self).rfds,
                self.wfds == old(self).wfds,
                forall|g: int|
                    old(self).spec_cur() <= g < self.curfd as int ==> !(#[trigger] old(
                        self,
                    ).spec_reads(g)) && !old(self).spec_writes(g),
            decreases self.maxfd - self.curfd + 1,
        {
            let is_read = self.rfds.is_set(self.curfd);
            let is_write = self.wfds.is_set(self.curfd);
            if !is_read && !is_write {
                self.curfd = self.curfd + 1;
            } else {
                let mut evset = EventSet::empty();
                if is_read {
                    evset.insert(EventSet::readable());
                }
                if is_write {
                    evset.insert(EventSet::writable());
                }
                let fired = Fired { fd: self.curfd, evset };
                proof {
                    // Everything skipped contributed nothing, and this
                    // descriptor contributes exactly one.
                    assert forall|g: int|
                        old(self).spec_cur() <= g < self.spec_cur() implies !(
                    #[trigger] self.rfds.spec_contains(g)) && !self.wfds.spec_contains(g) by {
                        assert(!old(self).spec_reads(g) && !old(self).spec_writes(g));
                    }
                    lemma_ready_count_skip(
                        self.rfds,
                        self.wfds,
                        self.spec_maxfd(),
                        old(self).spec_cur(),
                        self.spec_cur(),
                    );
                }
                self.curfd = self.curfd + 1;
                return Some(fired);
            }
        }
        proof {
            assert forall|g: int|
                old(self).spec_cur() <= g < self.spec_maxfd() + 1 implies !(
            #[trigger] self.rfds.spec_contains(g)) && !self.wfds.spec_contains(g) by {
                assert(!old(self).spec_reads(g) && !old(self).spec_writes(g));
            }
            lemma_ready_count_skip(
                self.rfds,
                self.wfds,
                self.spec_maxfd(),
                old(self).spec_cur(),
                self.spec_maxfd() + 1,
            );
        }
        None
    }

    /// How many events remain, consuming the walk: exactly the number of
    /// descriptors from the walk's position through `maxfd` that are ready
    /// in either set.
    pub fn count(self) -> (r: usize)
        requires
            self.wf(),
        ensures
            r == self.spec_count(),
            r <= FD_SETSIZE,
    {
        proof {
            lemma_ready_count_le(self.rfds, self.wfds, self.spec_maxfd(), self.spec_cur());
        }
        let mut it = self;
        let mut n: usize = 0;
        loop
            invariant
                it.wf(),
                n + it.spec_count() == self.spec_count(),
                self.spec_count() <= FD_SETSIZE,
            decreases it.maxfd - it.curfd + 1,
        {
            match it.next() {
                Some(_) => {
                    n = n + 1;
                },
                None => {
                    return n;
                },
            }
        }
    }
}

} // verus!
