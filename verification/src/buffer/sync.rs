//! The single-producer / single-consumer byte ring.
//!
//! The ring keeps two monotone 64-bit counters: `head` counts every byte ever
//! accepted from the producer and `tail` every byte handed to the consumer.
//! The backing store holds `2 * cap` bytes in which the same `cap` bytes
//! appear twice, once at offset `i` and once at offset `i + cap` — the
//! double-mapping layout, kept here as an invariant over the two images. Any
//! `cap`-byte span that starts in the lower image is therefore contiguous,
//! so a transfer is a single straight copy with no wraparound handling.
//!
//! Blocking coordination (a mutex-guarded state word with a condition
//! variable) cannot be expressed inside the verified core; the state machine
//! that drives it — `Open`, `Blocked`, `Disconnected` with `Disconnected`
//! terminal — is verified here as explicit transitions, and the waiting
//! itself is the caller's: `block` records the decision to wait, `unblock`
//! the wake-up, `disconnect` the loss of a peer.

use vstd::prelude::*;
use vstd::arithmetic::div_mod::{
    lemma_add_mod_noop, lemma_mod_division_less_than_divisor, lemma_small_mod,
    lemma_mod_add_multiples_vanish,
};

use crate::SysError;
use crate::buffer::map::{
    page_aligned, next_power_of_two, spec_is_pow2, spec_effective_cap, spec_capacity_for,
    spec_align_up,
};

verus! {

/// The blocking state of the ring. `Open` and `Blocked` alternate while both
/// endpoints live; `Disconnected` is entered when either endpoint goes away
/// and is never left.
#[derive(Clone, Copy, PartialEq, Eq, Structural, Debug)]
pub enum State {
    Open,
    Blocked,
    Disconnected,
}

/// The abstract state of a ring.
pub ghost struct RingView {
    /// The capacity in bytes: a power of two, at least one.
    pub cap: nat,
    /// Total bytes ever accepted from the producer.
    pub head: nat,
    /// Total bytes ever handed to the consumer.
    pub tail: nat,
    /// Every byte ever accepted, in order of acceptance.
    pub hist: Seq<u8>,
    /// The `2 * cap` bytes of the backing store: the lower and upper images
    /// of the same `cap` physical bytes.
    pub mem: Seq<u8>,
    /// The blocking state.
    pub state: State,
}

/// Well-formedness of a ring's abstract state: the occupancy `head - tail`
/// never exceeds the capacity, the history records exactly `head` bytes, the
/// two images of the backing store agree byte for byte, and the bytes not
/// yet consumed sit contiguously in the store starting at `tail % cap`.
pub open spec fn view_wf(v: RingView) -> bool {
    &&& spec_is_pow2(v.cap)
    &&& 1 <= v.cap
    &&& v.mem.len() == 2 * v.cap
    &&& v.tail <= v.head
    &&& v.head - v.tail <= v.cap
    &&& v.hist.len() == v.head
    &&& forall|i: int| 0 <= i < v.cap ==> #[trigger] v.mem[i] == v.mem[i + v.cap]
    &&& forall|p: int|
        v.tail <= p < v.head ==> v.mem[(v.tail as int) % (v.cap as int) + (p - v.tail)]
            == #[trigger] v.hist[p]
}

/// How many bytes a transfer of `len` offered bytes moves: the offer, capped
/// by what the ring can take (for a write) or give (for a read).
pub open spec fn spec_accepted(avail: nat, len: nat) -> nat {
    if len <= avail {
        len
    } else {
        avail
    }
}

/// The state after a notification: a disconnected ring stays disconnected,
/// and a non-zero transfer reopens a blocked ring.
pub open spec fn spec_state_after(pre: State, moved: nat) -> State {
    if pre is Disconnected {
        State::Disconnected
    } else if moved > 0 {
        State::Open
    } else {
        pre
    }
}

/// Relation between a ring's state before and after `try_write`: exactly
/// `r = min(data.len(), cap - (head - tail))` bytes are accepted, they are
/// appended to the history, and `head` advances by `r`.
pub open spec fn write_post(pre: RingView, data: Seq<u8>, post: RingView, r: nat) -> bool {
    &&& r == spec_accepted((pre.cap - (pre.head - pre.tail)) as nat, data.len())
    &&& post.cap == pre.cap
    &&& post.head == pre.head + r
    &&& post.tail == pre.tail
    &&& post.hist == pre.hist + data.take(r as int)
    &&& post.mem.len() == pre.mem.len()
    &&& post.state == spec_state_after(pre.state, r)
}

/// Relation between a ring's state before and after `try_read`: exactly
/// `r = min(want, head - tail)` bytes come out, they are the history's bytes
/// at positions `tail .. tail + r`, and `tail` advances by `r`. The backing
/// store and the history are untouched.
pub open spec fn read_post(pre: RingView, want: nat, post: RingView, out: Seq<u8>, r: nat) -> bool {
    &&& r == spec_accepted((pre.head - pre.tail) as nat, want)
    &&& post.cap == pre.cap
    &&& post.head == pre.head
    &&& post.tail == pre.tail + r
    &&& post.hist == pre.hist
    &&& post.mem == pre.mem
    &&& out == pre.hist.subrange(pre.tail as int, (pre.tail + r) as int)
    &&& post.state == spec_state_after(pre.state, r)
}

/// A fixed-capacity byte FIFO over a doubly-imaged backing store, shared in
/// role by a producer (who alone advances `head`) and a consumer (who alone
/// advances `tail`).
pub struct Ring {
    cap: usize,
    mask: usize,
    buf: Vec<u8>,
    head: u64,
    tail: u64,
    state: State,
    hist: Ghost<Seq<u8>>,
}

impl View for Ring {
    type V = RingView;

    closed spec fn view(&self) -> RingView {
        RingView {
            cap: self.cap as nat,
            head: self.head as nat,
            tail: self.tail as nat,
            hist: self.hist@,
            mem: self.buf@,
            state: self.state,
        }
    }
}

impl Ring {
    /// Well-formedness: the abstract state is well formed and the index mask
    /// is `cap - 1`.
    pub closed spec fn wf(&self) -> bool {
        &&& view_wf(self@)
        &&& self.cap >= 1
        &&& self.cap <= usize::MAX / 2
        &&& self.mask == self.cap - 1
    }

    /// The ring's capacity in bytes.
    pub fn capacity(&self) -> (r: usize)
        ensures
            r == self@.cap,
    {
        self.cap
    }

    /// The mask with which an offset is reduced modulo the capacity; the
    /// capacity is a power of two, so this is `cap - 1` (see
    /// `lemma_mask_indexes_like_modulo`).
    pub fn mask(&self) -> (r: usize)
        requires
            self.wf(),
        ensures
            r == self@.cap - 1,
    {
        self.mask
    }

    /// Builds a ring of exactly `cap` bytes, which must already be a power
    /// of two. The store starts zeroed, both counters at zero, the state
    /// `Open`.
    pub fn with_capacity(cap: usize) -> (r: Ring)
        requires
            spec_is_pow2(cap as nat),
            1 <= cap <= usize::MAX / 2,
        ensures
            r.wf(),
            r@.cap == cap,
            r@.head == 0,
            r@.tail == 0,
            r@.hist == Seq::<u8>::empty(),
            r@.state is Open,
    {
        let buf: Vec<u8> = vec![0u8; 2 * cap];
        Ring {
            cap,
            mask: cap - 1,
            buf,
            head: 0,
            tail: 0,
            state: State::Open,
            hist: Ghost(Seq::empty()),
        }
    }

    /// Builds a ring for a requested capacity: the request is rounded up to
    /// a multiple of the system page size and then to a power of two (a zero
    /// request yields one page). Only a request beyond what the address
    /// space could ever back is refused, with the OS's "out of memory"
    /// error.
    pub fn new(cap: usize) -> (r: Result<Ring, SysError>)
        ensures
            r is Ok <==> cap <= usize::MAX / 8,
            r matches Ok(rg) ==> {
                &&& rg.wf()
                &&& rg@.head == 0
                &&& rg@.tail == 0
                &&& rg@.hist == Seq::<u8>::empty()
                &&& rg@.state is Open
                &&& spec_is_pow2(rg@.cap)
                &&& rg@.cap >= spec_effective_cap(cap as nat)
                &&& (exists|page: nat|
                    1 <= page <= 65536 && spec_is_pow2(page) && #[trigger] spec_capacity_for(
                        rg@.cap,
                        cap as nat,
                        page,
                    ))
            },
            r matches Err(e) ==> e == SysError::Os(ENOMEM_ERRNO),
    {
        if cap > usize::MAX / 8 {
            return Err(SysError::Os(ENOMEM_ERRNO));
        }
        let aligned = page_aligned(cap);
        proof {
            assert(aligned <= usize::MAX / 2 + 1);
        }
        let p2 = next_power_of_two(aligned);
        proof {
            assert(p2 <= usize::MAX / 2);
            let page = choose|page: nat|
                1 <= page <= 65536 && spec_is_pow2(page) && aligned == spec_align_up(
                    spec_effective_cap(cap as nat),
                    page,
                );
            assert(spec_capacity_for(p2 as nat, cap as nat, page));
        }
        Ok(Self::with_capacity(p2))
    }

    /// Non-blocking write: accepts `min(buf.len(), cap - (head - tail))`
    /// bytes — the whole buffer if it fits, what room remains otherwise, and
    /// zero on a full ring — copies them into the store in one contiguous
    /// span, and advances `head`. A non-zero transfer reopens a blocked
    /// peer.
    pub fn try_write(&mut self, buf: &[u8]) -> (r: usize)
        requires
            old(self).wf(),
            old(self)@.head + buf@.len() <= u64::MAX,
        ensures
            final(self).wf(),
            write_post(old(self)@, buf@, final(self)@, r as nat),
    {
        let ghost pre = self@;
        let cap = self.cap;
        let h = self.head;
        let t = self.tail;
        let used = (h - t) as usize;
        let avail = cap - used;
        let n = if buf.len() <= avail {
            buf.len()
        } else {
            avail
        };
        let off = (h & (self.mask as u64)) as usize;
        let ghost toff = (t as int) % (cap as int);
        proof {
            lemma_mask_indexes_like_modulo(h, cap as u64);
            lemma_mod_division_less_than_divisor(h as int, cap as int);
            lemma_mod_division_less_than_divisor(t as int, cap as int);
            assert(off == (h as int) % (cap as int));
            if n > 0 {
                lemma_offset_split(t as int, used as int, cap as int);
            }
        }
        let mut j: usize = 0;
        while j < n
            invariant
                j <= n,
                n <= buf@.len(),
                n + used <= cap,
                used == pre.head - pre.tail,
                cap == pre.cap,
                1 <= cap <= usize::MAX / 2,
                off < cap,
                n > 0 ==> (off == toff + used || off == toff + used - cap),
                0 <= toff < cap,
                self.cap == pre.cap,
                self.head == pre.head,
                self.tail == pre.tail,
                self.state == pre.state,
                self.hist@ == pre.hist,
                self.mask == cap - 1,
                self.buf@.len() == 2 * cap,
                pre.mem.len() == 2 * cap,
                forall|i: int| 0 <= i < cap ==> #[trigger] self.buf@[i] == self.buf@[i + cap],
                forall|k: int| 0 <= k < j ==> self.buf@[off + k] == #[trigger] buf@[k],
                forall|q: int|
                    0 <= q < used ==> self.buf@[toff + q] == #[trigger] pre.mem[toff + q],
            decreases n - j,
        {
            let b = buf[j];
            let pos = off + j;
            let alias = if pos >= cap {
                pos - cap
            } else {
                pos + cap
            };
            self.buf[pos] = b;
            self.buf[alias] = b;
            j = j + 1;
        }
        self.head = h + (n as u64);
        proof {
            self.hist@ = pre.hist + buf@.take(n as int);
        }
        if n > 0 {
            if !matches!(self.state, State::Disconnected) {
                self.state = State::Open;
            }
        }
        proof {
            if n > 0 {
                assert forall|p: int| self@.tail <= p < self@.head implies self@.mem[(
                self@.tail as int) % (self@.cap as int) + (p - self@.tail)] == self@.hist[p] by {
                    if p < pre.head {
                        assert(pre.mem[toff + (p - pre.tail)] == pre.hist[p]);
                    } else {
                        let k = p - pre.head;
                        if off == toff + used {
                            assert(self@.mem[toff + used + k] == buf@[k]);
                        } else {
                            assert(self@.mem[off + k] == buf@[k]);
                            assert(off + k < cap);
                        }
                    }
                }
            }
        }
        n
    }

    /// Non-blocking read: hands out `min(buf.len(), head - tail)` bytes —
    /// zero on an empty ring — copying one contiguous span of the store into
    /// the front of `buf`, and advances `tail`. The bytes are exactly the
    /// history's bytes at positions `tail .. tail + r`; the rest of `buf` is
    /// untouched. A non-zero transfer reopens a blocked peer.
    pub fn try_read(&mut self, buf: &mut [u8]) -> (r: usize)
        requires
            old(self).wf(),
        ensures
            final(self).wf(),
            final(buf)@.len() == old(buf)@.len(),
            read_post(
                old(self)@,
                old(buf)@.len(),
                final(self)@,
                final(buf)@.take(r as int),
                r as nat,
            ),
            forall|i: int| r <= i < old(buf)@.len() ==> final(buf)@[i] == old(buf)@[i],
    {
        let ghost pre = self@;
        let ghost buf0 = buf@;
        let cap = self.cap;
        let h = self.head;
        let t = self.tail;
        let used = (h - t) as usize;
        let n = if buf.len() <= used {
            buf.len()
        } else {
            used
        };
        let toff = (t & (self.mask as u64)) as usize;
        proof {
            lemma_mask_indexes_like_modulo(t, cap as u64);
            lemma_mod_division_less_than_divisor(t as int, cap as int);
            assert(toff == (t as int) % (cap as int));
        }
        let mut j: usize = 0;
        while j < n
            invariant
                j <= n,
                n <= used,
                n <= buf0.len(),
                used <= cap,
                used == pre.head - pre.tail,
                cap == pre.cap,
                1 <= cap <= usize::MAX / 2,
                toff < cap,
                toff == (pre.tail as int) % (pre.cap as int),
                self.cap == pre.cap,
                self@ == pre,
                self.buf@.len() == 2 * cap,
                buf@.len() == buf0.len(),
                view_wf(pre),
                forall|k: int| 0 <= k < j ==> buf@[k] == #[trigger] pre.hist[pre.tail + k],
                forall|i: int| j <= i < buf0.len() ==> buf@[i] == #[trigger] buf0[i],
            decreases n - j,
        {
            let b = self.buf[toff + j];
            buf[j] = b;
            proof {
                assert(pre.mem[toff + j] == pre.hist[pre.tail + j]);
            }
            j = j + 1;
        }
        self.tail = t + (n as u64);
        if n > 0 {
            if !matches!(self.state, State::Disconnected) {
                self.state = State::Open;
            }
        }
        proof {
            if n > 0 && self@.tail < self@.head {
                lemma_offset_split(t as int, n as int, cap as int);
                assert forall|p: int| self@.tail <= p < self@.head implies self@.mem[(
                self@.tail as int) % (self@.cap as int) + (p - self@.tail)] == self@.hist[p] by {
                    let toff2 = (self@.tail as int) % (self@.cap as int);
                    assert(pre.mem[toff + (p - pre.tail)] == pre.hist[p]);
                    if toff2 == toff + n {
                        assert(toff2 + (p - self@.tail) == toff + (p - pre.tail));
                    } else {
                        assert(toff2 + (p - self@.tail) == toff + (p - pre.tail) - cap);
                        assert(self@.mem[toff + (p - pre.tail) - cap] == self@.mem[toff + (p
                            - pre.tail)]);
                    }
                }
            }
            assert forall|i: int| 0 <= i < n implies buf@.take(n as int)[i] == pre.hist.subrange(
                pre.tail as int,
                (pre.tail + n) as int,
            )[i] by {
                assert(buf@[i] == pre.hist[pre.tail + i]);
            }
            assert(buf@.take(n as int) =~= pre.hist.subrange(
                pre.tail as int,
                (pre.tail + n) as int,
            ));
        }
        n
    }

    /// Records the loss of an endpoint: the state becomes `Disconnected`,
    /// terminally. The caller notifies any waiter.
    pub fn disconnect(&mut self)
        requires
            old(self).wf(),
        ensures
            final(self).wf(),
            final(self)@ == (RingView { state: State::Disconnected, ..old(self)@ }),
    {
        self.state = State::Disconnected;
    }

    /// The decision step of a blocking transfer that found no room or no
    /// data: against a disconnected ring the caller must give up (`None`
    /// from the blocking interface); otherwise the ring is marked `Blocked`
    /// and the caller parks until a notification. Returns the state that was
    /// decided.
    pub fn block(&mut self) -> (r: State)
        requires
            old(self).wf(),
        ensures
            final(self).wf(),
            r == final(self)@.state,
            (old(self)@.state is Disconnected) ==> final(self)@ == old(self)@,
            !(old(self)@.state is Disconnected) ==> final(self)@ == (RingView {
                state: State::Blocked,
                ..old(self)@
            }),
    {
        match self.state {
            State::Disconnected => State::Disconnected,
            _ => {
                self.state = State::Blocked;
                State::Blocked
            },
        }
    }

    /// The notification step after a transfer: a disconnected ring stays
    /// disconnected; otherwise the ring is reopened and the caller wakes the
    /// peer. Returns the state that was decided.
    pub fn unblock(&mut self) -> (r: State)
        requires
            old(self).wf(),
        ensures
            final(self).wf(),
            r == final(self)@.state,
            (old(self)@.state is Disconnected) ==> final(self)@ == old(self)@,
            !(old(self)@.state is Disconnected) ==> final(self)@ == (RingView {
                state: State::Open,
                ..old(self)@
            }),
    {
        match self.state {
            State::Disconnected => State::Disconnected,
            _ => {
                self.state = State::Open;
                State::Open
            },
        }
    }
}

/// The plan of one non-blocking transfer: how many bytes move and at which
/// offset of the store the contiguous span starts. For a write, `counter`
/// is `head` and `avail` the room `cap - (head - tail)`; for a read,
/// `counter` is `tail` and `avail` the occupancy `head - tail`. A shell
/// that runs the same algorithm over a real double mapping draws its
/// arithmetic from here.
pub fn transfer_plan(cap: usize, counter: u64, avail: usize, len: usize) -> (r: (usize, usize))
    requires
        spec_is_pow2(cap as nat),
        avail <= cap,
    ensures
        r.0 == spec_accepted(avail as nat, len as nat),
        r.0 <= len,
        r.0 <= avail,
        r.1 == (counter as int) % (cap as int),
        r.1 < cap,
{
    let n = if len <= avail {
        len
    } else {
        avail
    };
    let off = (counter & ((cap - 1) as u64)) as usize;
    proof {
        lemma_mask_indexes_like_modulo(counter, cap as u64);
        lemma_mod_division_less_than_divisor(counter as int, cap as int);
    }
    (n, off)
}

/// The OS error for a capacity that no mapping could back.
pub const ENOMEM_ERRNO: i32 = 12;

/// Creates a ring for the requested capacity; see `Ring::new`. The two roles
/// of the ring — producer and consumer — act through `try_write` and
/// `try_read` on the value returned.
pub fn ring(cap: usize) -> (r: Result<Ring, SysError>)
    ensures
        r is Ok <==> cap <= usize::MAX / 8,
        r matches Ok(rg) ==> {
            &&& rg.wf()
            &&& rg@.head == 0
            &&& rg@.tail == 0
            &&& rg@.hist == Seq::<u8>::empty()
            &&& rg@.state is Open
            &&& spec_is_pow2(rg@.cap)
            &&& rg@.cap >= spec_effective_cap(cap as nat)
            &&& (exists|page: nat|
                1 <= page <= 65536 && spec_is_pow2(page) && #[trigger] spec_capacity_for(
                    rg@.cap,
                    cap as nat,
                    page,
                ))
        },
{
    Ring::new(cap)
}

/// Every power of two that fits a 64-bit word has an exponent below 64.
proof fn lemma_pow2_exponent(n: u64)
    requires
        spec_is_pow2(n as nat),
    ensures
        exists|k: nat| k < 64 && n as nat == vstd::arithmetic::power2::pow2(k),
    decreases n,
{
    if n == 1 {
        vstd::arithmetic::power2::lemma2_to64();
        assert(0 < 64 && n as nat == vstd::arithmetic::power2::pow2(0));
    } else {
        lemma_pow2_exponent(n / 2);
        let k = choose|k: nat| k < 64 && (n / 2) as nat == vstd::arithmetic::power2::pow2(k);
        vstd::arithmetic::power2::lemma_pow2_unfold(k + 1);
        assert(n as nat == vstd::arithmetic::power2::pow2(k + 1));
        if k + 1 >= 64 {
            vstd::arithmetic::power2::lemma_pow2_strictly_increases(63, k + 1);
            vstd::arithmetic::power2::lemma2_to64_rest();
        }
        assert(k + 1 < 64 && n as nat == vstd::arithmetic::power2::pow2(k + 1));
    }
}

/// Law: because the capacity is a power of two, reducing an offset with the
/// mask `cap - 1` is the same as reducing it modulo the capacity: the
/// bit-mask indexing of the mapped store agrees with the modular arithmetic
/// the contracts are stated in.
pub proof fn lemma_mask_indexes_like_modulo(x: u64, cap: u64)
    requires
        spec_is_pow2(cap as nat),
    ensures
        x % cap == x & (((cap as int) - 1) as u64),
{
    lemma_pow2_exponent(cap);
    let k = choose|k: nat| k < 64 && cap as nat == vstd::arithmetic::power2::pow2(k);
    vstd::bits::lemma_u64_low_bits_mask_is_mod(x, k);
    assert(vstd::bits::low_bits_mask(k) == cap - 1);
}

/// For `0 <= b < m` and `0 <= a`, the offset `(a + b) % m` is either
/// `a % m + b` (no wrap) or `a % m + b - m` (wrap).
proof fn lemma_offset_split(a: int, b: int, m: int)
    requires
        1 <= m,
        0 <= a,
        0 <= b < m,
    ensures
        (a + b) % m == a % m + b || (a + b) % m == a % m + b - m,
{
    lemma_add_mod_noop(a, b, m);
    lemma_small_mod(b as nat, m as nat);
    lemma_mod_division_less_than_divisor(a, m);
    let s = a % m + b;
    if s < m {
        lemma_small_mod(s as nat, m as nat);
    } else {
        lemma_mod_add_multiples_vanish(s - m, m);
        lemma_small_mod((s - m) as nat, m as nat);
    }
}

/// Bridge from a ring's sealed well-formedness to the open invariant over
/// its abstract state: every well-formed ring satisfies `view_wf`, so the
/// laws below apply to it.
pub proof fn lemma_ring_wf_view(r: &Ring)
    requires
        r.wf(),
    ensures
        view_wf(r@),
{
}

/// Law: at every moment the occupancy lies between zero and the capacity:
/// `0 <= head - tail <= cap`.
pub proof fn lemma_occupancy_bounds(v: RingView)
    requires
        view_wf(v),
    ensures
        v.tail <= v.head <= v.tail + v.cap,
{
}

/// Law: the double mapping is coherent: the byte at offset `i` of the lower
/// image and the byte at offset `i + cap` of the store — offset `i - cap`
/// relative to the upper image — are the same byte, for every `i` below the
/// capacity.
pub proof fn lemma_double_mapping(v: RingView, i: int)
    requires
        view_wf(v),
        0 <= i < v.cap,
    ensures
        v.mem[i] == v.mem[i + v.cap],
{
}

/// Law: the unread bytes sit contiguously in the doubled store: the span of
/// length `head - tail` starting at offset `tail % cap` stays within the
/// store — no transfer ever needs wraparound handling — and spells exactly
/// the history's unread bytes.
pub proof fn lemma_live_span_contiguous(v: RingView)
    requires
        view_wf(v),
    ensures
        (v.tail as int) % (v.cap as int) + (v.head - v.tail) <= v.mem.len(),
        forall|p: int|
            v.tail <= p < v.head ==> v.mem[(v.tail as int) % (v.cap as int) + (p - v.tail)]
                == #[trigger] v.hist[p],
{
    lemma_mod_division_less_than_divisor(v.tail as int, v.cap as int);
}

/// Law: accepted writes accumulate: two writes in a row append the accepted
/// prefix of each buffer to the history, in order, so the bytes a consumer
/// will observe are exactly the concatenation of what the producer's writes
/// accepted.
pub proof fn lemma_writes_accumulate(
    pre: RingView,
    d1: Seq<u8>,
    mid: RingView,
    r1: nat,
    d2: Seq<u8>,
    post: RingView,
    r2: nat,
)
    requires
        write_post(pre, d1, mid, r1),
        write_post(mid, d2, post, r2),
    ensures
        post.hist == pre.hist + d1.take(r1 as int) + d2.take(r2 as int),
        post.head == pre.head + r1 + r2,
{
}

/// Law: the consumer observes the producer's accepted bytes in order, with
/// no byte lost, duplicated, or reordered: two consecutive reads drain
/// adjacent spans of the history, and their concatenation is exactly the
/// history between the old and the new `tail`.
pub proof fn lemma_reads_observe_history_in_order(
    pre: RingView,
    mid: RingView,
    post: RingView,
    want1: nat,
    out1: Seq<u8>,
    r1: nat,
    want2: nat,
    out2: Seq<u8>,
    r2: nat,
)
    requires
        view_wf(pre),
        read_post(pre, want1, mid, out1, r1),
        read_post(mid, want2, post, out2, r2),
    ensures
        out1 + out2 == pre.hist.subrange(pre.tail as int, (pre.tail + r1 + r2) as int),
        post.tail == pre.tail + r1 + r2,
{
    assert(out1 + out2 =~= pre.hist.subrange(pre.tail as int, (pre.tail + r1 + r2) as int));
}

/// Law: a write of the whole of `data` into a ring with room for it,
/// followed by a read with room for the whole of it, hands `data` back
/// unchanged.
pub proof fn lemma_round_trip(
    pre: RingView,
    data: Seq<u8>,
    mid: RingView,
    r1: nat,
    want: nat,
    post: RingView,
    out: Seq<u8>,
    r2: nat,
)
    requires
        view_wf(pre),
        pre.head == pre.tail,
        data.len() <= pre.cap,
        want >= data.len(),
        write_post(pre, data, mid, r1),
        read_post(mid, want, post, out, r2),
    ensures
        r1 == data.len(),
        r2 == data.len(),
        out == data,
{
    assert(out =~= data);
}

/// Law: what one transfer moves: a write against a full ring and a read
/// against an empty ring move nothing; any other transfer moves
/// `min(buf.len(), available)` bytes, where `available` is the room for a
/// write and the occupancy for a read.
pub proof fn lemma_transfer_amounts(
    pre: RingView,
    data: Seq<u8>,
    post_w: RingView,
    rw: nat,
    want: nat,
    post_r: RingView,
    out: Seq<u8>,
    rr: nat,
)
    requires
        write_post(pre, data, post_w, rw),
        read_post(pre, want, post_r, out, rr),
    ensures
        pre.head - pre.tail == pre.cap ==> rw == 0,
        pre.head == pre.tail ==> rr == 0,
        rw == spec_accepted((pre.cap - (pre.head - pre.tail)) as nat, data.len()),
        rr == spec_accepted((pre.head - pre.tail) as nat, want),
{
}

/// One observable step of a ring: a write offering `data` that moved
/// `moved` bytes, or a read wanting at most `want` bytes that moved
/// `moved` bytes and handed out `out`.
pub ghost enum RingOp {
    Write { data: Seq<u8>, moved: nat },
    Read { want: nat, out: Seq<u8>, moved: nat },
}

/// Whether `op` relates `pre` to `post` as the non-blocking transfers do.
pub open spec fn spec_step(pre: RingView, op: RingOp, post: RingView) -> bool {
    match op {
        RingOp::Write { data, moved } => write_post(pre, data, post, moved),
        RingOp::Read { want, out, moved } => read_post(pre, want, post, out, moved),
    }
}

/// Whether the ops in order lead from `pre` to `post`.
pub open spec fn spec_trace(pre: RingView, ops: Seq<RingOp>, post: RingView) -> bool
    decreases ops.len(),
{
    if ops.len() == 0 {
        post == pre
    } else {
        exists|mid: RingView| #[trigger] spec_step(pre, ops[0], mid) && spec_trace(
            mid,
            ops.skip(1),
            post,
        )
    }
}

/// The bytes the producer's writes got accepted along a trace, in order.
pub open spec fn spec_written(ops: Seq<RingOp>) -> Seq<u8>
    decreases ops.len(),
{
    if ops.len() == 0 {
        Seq::empty()
    } else {
        (match ops[0] {
            RingOp::Write { data, moved } => data.take(moved as int),
            RingOp::Read { .. } => Seq::empty(),
        }) + spec_written(ops.skip(1))
    }
}

/// The bytes the consumer's reads handed out along a trace, in order.
pub open spec fn spec_observed(ops: Seq<RingOp>) -> Seq<u8>
    decreases ops.len(),
{
    if ops.len() == 0 {
        Seq::empty()
    } else {
        (match ops[0] {
            RingOp::Write { .. } => Seq::empty(),
            RingOp::Read { out, .. } => out,
        }) + spec_observed(ops.skip(1))
    }
}

/// Law (FIFO, any interleaving): along any sequence of interleaved
/// non-blocking writes and reads, the history grows by exactly the
/// accepted bytes of the writes, in order, and what the reads hand out is
/// exactly the history between the old and the new `tail` — no byte is
/// lost, duplicated, or reordered.
pub proof fn lemma_fifo_trace(pre: RingView, ops: Seq<RingOp>, post: RingView)
    requires
        spec_trace(pre, ops, post),
        pre.hist.len() == pre.head,
        pre.tail <= pre.head,
    ensures
        post.hist == pre.hist + spec_written(ops),
        post.tail == pre.tail + spec_observed(ops).len(),
        spec_observed(ops) == post.hist.subrange(pre.tail as int, post.tail as int),
        post.hist.len() == post.head,
        post.tail <= post.head,
    decreases ops.len(),
{
    if ops.len() == 0 {
        assert(post.hist =~= pre.hist + spec_written(ops));
        assert(spec_observed(ops) =~= post.hist.subrange(pre.tail as int, post.tail as int));
    } else {
        let mid = choose|mid: RingView|
            #[trigger] spec_step(pre, ops[0], mid) && spec_trace(mid, ops.skip(1), post);
        lemma_fifo_trace(mid, ops.skip(1), post);
        match ops[0] {
            RingOp::Write { data, moved } => {
                assert(post.hist =~= pre.hist + spec_written(ops));
                assert(spec_observed(ops) =~= spec_observed(ops.skip(1)));
            },
            RingOp::Read { want, out, moved } => {
                assert(post.hist =~= pre.hist + spec_written(ops));
                assert(out =~= post.hist.subrange(pre.tail as int, mid.tail as int));
                assert(spec_observed(ops) =~= out + spec_observed(ops.skip(1)));
                assert(spec_observed(ops) =~= post.hist.subrange(
                    pre.tail as int,
                    post.tail as int,
                ));
            },
        }
    }
}

/// Law (P-corollary): from a fresh ring, the bytes the consumer has
/// observed are exactly a prefix of the concatenation of the producer's
/// accepted writes, and the whole of it once the ring is drained.
pub proof fn lemma_fifo_from_fresh(pre: RingView, ops: Seq<RingOp>, post: RingView)
    requires
        spec_trace(pre, ops, post),
        pre.head == 0,
        pre.tail == 0,
        pre.hist == Seq::<u8>::empty(),
    ensures
        spec_observed(ops) == spec_written(ops).take(post.tail as int),
        post.head == post.tail ==> spec_observed(ops) == spec_written(ops),
    decreases ops.len(),
{
    lemma_fifo_trace(pre, ops, post);
    assert(post.hist =~= spec_written(ops));
    assert(spec_observed(ops) =~= spec_written(ops).take(post.tail as int));
    if post.head == post.tail {
        assert(spec_observed(ops) =~= spec_written(ops));
    }
}

/// Law: disconnection is sticky: once a ring is `Disconnected`, no transfer
/// and no blocking decision leaves that state, and the blocking decision
/// reports it, so the peer's next blocking call gives up.
pub proof fn lemma_disconnect_terminal(
    pre: RingView,
    data: Seq<u8>,
    post_w: RingView,
    rw: nat,
    want: nat,
    post_r: RingView,
    out: Seq<u8>,
    rr: nat,
)
    requires
        pre.state is Disconnected,
        write_post(pre, data, post_w, rw),
        read_post(pre, want, post_r, out, rr),
    ensures
        post_w.state is Disconnected,
        post_r.state is Disconnected,
{
}

} // verus!
