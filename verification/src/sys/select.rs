//! The `select` system call's descriptor set, modelled bit for bit.
//!
//! An `fd_set` holds one bit per file descriptor below `FD_SETSIZE`, packed
//! into 64-bit words. The bit arithmetic — which word a descriptor lands in,
//! which bit inside the word — is verified against a membership model, so
//! the selector built on top can reason about registration as plain set
//! membership.

use vstd::prelude::*;
use vstd::arithmetic::div_mod::lemma_fundamental_div_mod;

verus! {

/// The highest number of descriptors an `fd_set` can track.
pub const FD_SETSIZE: usize = 1024;

/// Bits per word of the set.
pub const NFD_BITS: usize = 64;

/// Words in the set.
pub const FD_WORDS: usize = 16;

/// Whether bit `k` of `w` is set.
pub open spec fn spec_bit(w: u64, k: nat) -> bool {
    (w >> (k as u64)) & 1 == 1
}

/// A fixed-size bitset of file descriptors, as handed to `select`.
#[allow(non_camel_case_types)]
pub struct fd_set {
    bits: Vec<u64>,
}

impl fd_set {
    /// The backing words.
    pub closed spec fn words(&self) -> Seq<u64> {
        self.bits@
    }

    /// Well-formedness: exactly `FD_WORDS` words.
    pub open spec fn wf(&self) -> bool {
        self.words().len() == FD_WORDS
    }

    /// Whether descriptor `fd` is in the set.
    pub open spec fn spec_contains(&self, fd: int) -> bool {
        0 <= fd < FD_SETSIZE && spec_bit(self.words()[fd / (NFD_BITS as int)], (fd % (
        NFD_BITS as int)) as nat)
    }

    /// Creates an empty `fd_set`.
    pub fn new() -> (r: fd_set)
        ensures
            r.wf(),
            forall|g: int| !r.spec_contains(g),
    {
        let r = fd_set { bits: vec![0u64; FD_WORDS] };
        proof {
            assert forall|g: int| !r.spec_contains(g) by {
                if 0 <= g < FD_SETSIZE {
                    lemma_bit_zero((g % (NFD_BITS as int)) as u64);
                }
            }
        }
        r
    }

    /// Empties the set.
    pub fn zero(&mut self)
        requires
            old(self).wf(),
        ensures
            final(self).wf(),
            forall|g: int| !final(self).spec_contains(g),
    {
        let mut i: usize = 0;
        while i < FD_WORDS
            invariant
                i <= FD_WORDS,
                self.bits@.len() == FD_WORDS,
                forall|k: int| 0 <= k < i ==> self.bits@[k] == 0u64,
            decreases FD_WORDS - i,
        {
            self.bits[i] = 0;
            i = i + 1;
        }
        proof {
            assert forall|g: int| !self.spec_contains(g) by {
                if 0 <= g < FD_SETSIZE {
                    lemma_bit_zero((g % (NFD_BITS as int)) as u64);
                }
            }
        }
    }

    /// Adds descriptor `fd` to the set.
    pub fn set(&mut self, fd: i32)
        requires
            old(self).wf(),
            0 <= fd < FD_SETSIZE,
        ensures
            final(self).wf(),
            forall|g: int|
                #[trigger] final(self).spec_contains(g) == (old(self).spec_contains(g) || g
                    == fd),
    {
        let e = get_elt(fd);
        let m = get_mask(fd);
        let w = self.bits[e];
        self.bits[e] = w | m;
        proof {
            assert forall|g: int|
                #[trigger] self.spec_contains(g) == (old(self).spec_contains(g) || g == fd) by {
                if 0 <= g < FD_SETSIZE {
                    lemma_fd_coords_unique(g, fd as int);
                    if g / (NFD_BITS as int) == e {
                        lemma_bit_or(w, (fd % 64) as u64, (g % (NFD_BITS as int)) as u64);
                    }
                }
            }
        }
    }

    /// Removes descriptor `fd` from the set.
    pub fn unset(&mut self, fd: i32)
        requires
            old(self).wf(),
            0 <= fd < FD_SETSIZE,
        ensures
            final(self).wf(),
            forall|g: int|
                #[trigger] final(self).spec_contains(g) == (old(self).spec_contains(g) && g
                    != fd),
    {
        let e = get_elt(fd);
        let m = get_mask(fd);
        let w = self.bits[e];
        self.bits[e] = w & !m;
        proof {
            assert forall|g: int|
                #[trigger] self.spec_contains(g) == (old(self).spec_contains(g) && g != fd) by {
                if 0 <= g < FD_SETSIZE {
                    lemma_fd_coords_unique(g, fd as int);
                    if g / (NFD_BITS as int) == e {
                        lemma_bit_clear(w, (fd % 64) as u64, (g % (NFD_BITS as int)) as u64);
                    }
                }
            }
        }
    }

    /// Whether descriptor `fd` is in the set.
    pub fn is_set(&self, fd: i32) -> (r: bool)
        requires
            self.wf(),
            0 <= fd < FD_SETSIZE,
        ensures
            r == self.spec_contains(fd as int),
    {
        let e = get_elt(fd);
        let m = get_mask(fd);
        let r = self.bits[e] & m != 0;
        proof {
            lemma_bit_test(self.bits@[e as int], (fd % 64) as u64);
        }
        r
    }
}

/// A descriptor set wrapped for ownership by a selector.
pub struct FileSet(pub fd_set);

impl FileSet {
    /// Creates an empty set.
    pub fn new() -> (r: FileSet)
        ensures
            r.0.wf(),
            forall|g: int| !r.0.spec_contains(g),
    {
        FileSet(fd_set::new())
    }
}

/// The word that holds descriptor `fd`'s bit.
fn get_elt(fd: i32) -> (r: usize)
    requires
        0 <= fd < FD_SETSIZE,
    ensures
        r == fd as int / (NFD_BITS as int),
        r < FD_WORDS,
{
    (fd as usize) / NFD_BITS
}

/// The mask of descriptor `fd`'s bit inside its word.
fn get_mask(fd: i32) -> (r: u64)
    requires
        0 <= fd < FD_SETSIZE,
    ensures
        r == 1u64 << ((fd as int % (NFD_BITS as int)) as u64),
{
    1u64 << ((fd as usize % NFD_BITS) as u64)
}

/// Two descriptors with the same word and the same bit are the same.
proof fn lemma_fd_coords_unique(g: int, f: int)
    requires
        0 <= g,
        0 <= f,
    ensures
        (g / (NFD_BITS as int) == f / (NFD_BITS as int) && g % (NFD_BITS as int) == f % (
        NFD_BITS as int)) ==> g == f,
{
    lemma_fundamental_div_mod(g, NFD_BITS as int);
    lemma_fundamental_div_mod(f, NFD_BITS as int);
}

/// The zero word has no bit set.
proof fn lemma_bit_zero(j: u64)
    requires
        j < 64,
    ensures
        !spec_bit(0u64, j as nat),
{
    assert((0u64 >> j) & 1 == 0) by (bit_vector);
}

/// Setting bit `k` sets exactly bit `k`.
proof fn lemma_bit_or(w: u64, k: u64, j: u64)
    requires
        k < 64,
        j < 64,
    ensures
        spec_bit(w | (1u64 << k), j as nat) == (spec_bit(w, j as nat) || j == k),
{
    assert(((w | (1u64 << k)) >> j) & 1 == (if j == k {
        1u64
    } else {
        (w >> j) & 1
    })) by (bit_vector)
        requires
            k < 64 && j < 64,
    ;
    assert((w >> j) & 1 == 0 || (w >> j) & 1 == 1) by (bit_vector);
}

/// Clearing bit `k` clears exactly bit `k`.
proof fn lemma_bit_clear(w: u64, k: u64, j: u64)
    requires
        k < 64,
        j < 64,
    ensures
        spec_bit(w & !(1u64 << k), j as nat) == (spec_bit(w, j as nat) && j != k),
{
    assert(((w & !(1u64 << k)) >> j) & 1 == (if j == k {
        0u64
    } else {
        (w >> j) & 1
    })) by (bit_vector)
        requires
            k < 64 && j < 64,
    ;
    assert((w >> j) & 1 == 0 || (w >> j) & 1 == 1) by (bit_vector);
}

/// Testing through a mask agrees with testing the shifted bit.
proof fn lemma_bit_test(w: u64, k: u64)
    requires
        k < 64,
    ensures
        (w & (1u64 << k) != 0) == spec_bit(w, k as nat),
{
    assert((w & (1u64 << k) != 0) == ((w >> k) & 1 == 1)) by (bit_vector)
        requires
            k < 64,
    ;
}

} // verus!
