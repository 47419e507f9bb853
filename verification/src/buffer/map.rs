//! Capacity arithmetic and the shared-memory object that backs a ring.
//!
//! The ring's capacity must be a multiple of the system page size (so it can
//! be mapped) and a power of two (so offsets can be reduced with a bit mask).
//! The arithmetic that establishes both properties lives here, together with
//! `Shm`, a POSIX shared-memory object created under a fresh random name and
//! unlinked immediately so that no name outlives the descriptor.

use vstd::prelude::*;
use vstd::arithmetic::div_mod::{
    lemma_fundamental_div_mod, lemma_mod_division_less_than_divisor, lemma_mod_multiples_basic,
    lemma_div_multiples_vanish_fancy,
};

use crate::SysError;

verus! {

/// `x` rounded up to the next multiple of `page`.
pub open spec fn spec_align_up(x: nat, page: nat) -> nat
    recommends
        page >= 1,
{
    (((x + page - 1) / (page as int)) * (page as int)) as nat
}

/// A requested capacity, with a zero request read as a request for one byte.
pub open spec fn spec_effective_cap(cap: nat) -> nat {
    if cap == 0 {
        1
    } else {
        cap
    }
}

/// Whether `n` is a power of two.
pub open spec fn spec_is_pow2(n: nat) -> bool
    decreases n,
{
    if n == 0 {
        false
    } else if n == 1 {
        true
    } else {
        n % 2 == 0 && spec_is_pow2(n / 2)
    }
}

/// Whether `c` is the ring capacity for a request of `req` bytes on a
/// system whose page size is `page`: the smallest power of two at least the
/// page rounding of the request (a zero request counts as one byte).
pub open spec fn spec_capacity_for(c: nat, req: nat, page: nat) -> bool {
    &&& spec_is_pow2(c)
    &&& c >= spec_align_up(spec_effective_cap(req), page)
    &&& c < 2 * spec_align_up(spec_effective_cap(req), page)
}

/// A power of two divides every power of two at least it.
pub proof fn lemma_pow2_divides(a: nat, b: nat)
    requires
        spec_is_pow2(a),
        spec_is_pow2(b),
        a <= b,
    ensures
        b % a == 0,
    decreases a,
{
    if a == 1 {
        lemma_mod_division_less_than_divisor(b as int, 1);
    } else {
        lemma_pow2_divides(a / 2, b / 2);
        lemma_fundamental_div_mod((b / 2) as int, (a / 2) as int);
        lemma_fundamental_div_mod(b as int, 2);
        lemma_fundamental_div_mod(a as int, 2);
        let q = (b / 2) / (a / 2);
        assert(b == a * q) by (nonlinear_arith)
            requires
                b == 2 * (b / 2) && a == 2 * (a / 2) && (b / 2) == (a / 2) * q,
        ;
        lemma_mod_multiples_basic(q as int, a as int);
    }
}

/// Two powers of two within a factor of two of each other are equal.
pub proof fn lemma_pow2_unique_below_double(a: nat, b: nat)
    requires
        spec_is_pow2(a),
        spec_is_pow2(b),
        a <= b < 2 * a,
    ensures
        a == b,
{
    lemma_pow2_divides(a, b);
    lemma_fundamental_div_mod(b as int, a as int);
    let q = b / a;
    assert(q == 1) by (nonlinear_arith)
        requires
            a >= 1 && b == a * q && a <= b && b < 2 * a,
    ;
}

/// Law: a power-of-two request no smaller than any page comes back as the
/// capacity itself: for such a request `req`, the capacity a ring is built
/// with equals `req` exactly.
pub proof fn lemma_capacity_of_pow2_request(c: nat, req: nat, page: nat)
    requires
        1 <= page <= 65536,
        spec_is_pow2(page),
        spec_is_pow2(req),
        req >= 65536,
        spec_capacity_for(c, req, page),
    ensures
        c == req,
{
    lemma_pow2_divides(page, req);
    lemma_fundamental_div_mod(req as int, page as int);
    let k = req / page;
    lemma_div_multiples_vanish_fancy(k as int, (page - 1) as int, page as int);
    assert((req + page - 1) / (page as int) == k);
    vstd::arithmetic::mul::lemma_mul_is_commutative(k as int, page as int);
    assert(spec_align_up(req, page) == req);
    lemma_pow2_unique_below_double(req, c);
}

/// Law: a zero request comes back as exactly one page: the capacity a ring
/// is built with for a request of 0 equals the system's page size (itself a
/// power of two).
pub proof fn lemma_capacity_of_zero_request(c: nat, page: nat)
    requires
        1 <= page <= 65536,
        spec_is_pow2(page),
        spec_capacity_for(c, 0, page),
    ensures
        c == page,
{
    vstd::arithmetic::div_mod::lemma_div_by_self(page as int);
    assert(((1 + page - 1) as int) / (page as int) == 1);
    assert(spec_align_up(spec_effective_cap(0), page) == page);
    lemma_pow2_unique_below_double(page, c);
}

/// Rounds `x` up to the next multiple of `page`.
pub fn align_up(x: usize, page: usize) -> (r: usize)
    requires
        1 <= page,
        1 <= x,
        x + page - 1 <= usize::MAX,
    ensures
        r == spec_align_up(x as nat, page as nat),
        r % page == 0,
        x <= r < x + page,
{
    let a = x + (page - 1);
    let rem = a % page;
    proof {
        lemma_fundamental_div_mod(a as int, page as int);
        lemma_mod_division_less_than_divisor(a as int, page as int);
        lemma_mod_multiples_basic((a / page) as int, page as int);
        assert(a - rem == (page as int) * ((a as int) / (page as int)));
        vstd::arithmetic::mul::lemma_mul_is_commutative(
            page as int,
            (a as int) / (page as int),
        );
        assert(spec_align_up(x as nat, page as nat) == ((a as int) / (page as int)) * (
        page as int));
    }
    a - rem
}

/// Rounds `x` up to the next power of two.
pub fn next_power_of_two(x: usize) -> (r: usize)
    requires
        1 <= x <= usize::MAX / 2 + 1,
    ensures
        spec_is_pow2(r as nat),
        x <= r,
        r < 2 * x,
{
    let mut p: usize = 1;
    while p < x
        invariant
            spec_is_pow2(p as nat),
            1 <= p,
            p < 2 * x,
            x <= usize::MAX / 2 + 1,
        decreases 2 * x - p,
    {
        p = p * 2;
    }
    p
}

/// Relies on `nix::unistd::sysconf(SysconfVar::PAGE_SIZE)`: reports the
/// system's page size in bytes, which POSIX guarantees to be at least 1 and
/// which is a power of two on every real system — pages are hardware
/// translation units, sized in whole address bits. Any failure of the
/// underlying call is reported as 0; the caller validates the range either
/// way.
#[verifier::external_body]
fn sysconf_page_size() -> (r: usize)
    ensures
        r == 0 || spec_is_pow2(r as nat),
{
    match nix::unistd::sysconf(nix::unistd::SysconfVar::PAGE_SIZE) {
        Ok(Some(sz)) => sz as usize,
        _ => 0,
    }
}

/// The system's page size in bytes, clamped to the range of page sizes that
/// POSIX systems actually use so that capacity arithmetic cannot overflow.
/// An out-of-range or failed report falls back to the common 4 KiB page.
pub fn get_page_size() -> (r: usize)
    ensures
        1 <= r <= 65536,
        spec_is_pow2(r as nat),
{
    let sz = sysconf_page_size();
    if 1 <= sz && sz <= 65536 {
        sz
    } else {
        proof {
            reveal_with_fuel(spec_is_pow2, 14);
        }
        4096
    }
}

/// Returns `cap` rounded up to a multiple of the system's page size (a zero
/// request is treated as a request for one byte).
pub fn page_aligned(cap: usize) -> (r: usize)
    requires
        cap <= usize::MAX - 65536,
    ensures
        exists|page: nat|
            1 <= page <= 65536 && spec_is_pow2(page) && r == #[trigger] spec_align_up(
                spec_effective_cap(cap as nat),
                page,
            ),
        r >= 1,
        r >= cap,
        r < spec_effective_cap(cap as nat) + 65536,
{
    let c = if cap == 0 {
        1
    } else {
        cap
    };
    let page = get_page_size();
    let r = align_up(c, page);
    proof {
        assert(1 <= page as nat <= 65536 && spec_is_pow2(page as nat) && r == spec_align_up(
            spec_effective_cap(cap as nat),
            page as nat,
        ));
    }
    r
}

/// Whether `b` is an ASCII letter or digit.
pub open spec fn spec_is_alnum(b: u8) -> bool {
    (48 <= b <= 57) || (65 <= b <= 90) || (97 <= b <= 122)
}

/// The shape of a shared-memory name generated by this library: `/ring-`
/// followed by twelve ASCII alphanumerics, so the name is absolute and holds
/// no further slash.
pub open spec fn spec_shm_name_wf(s: Seq<u8>) -> bool {
    &&& s.len() == 18
    &&& s[0] == 47u8  // '/'
    &&& s[1] == 114u8  // 'r'
    &&& s[2] == 105u8  // 'i'
    &&& s[3] == 110u8  // 'n'
    &&& s[4] == 103u8  // 'g'
    &&& s[5] == 45u8  // '-'
    &&& forall|i: int| 6 <= i < 18 ==> spec_is_alnum(#[trigger] s[i])
}

/// Relies on `rand::distributions::Alphanumeric`, which samples bytes
/// uniformly from the ASCII letters and digits; every byte of the result is
/// alphanumeric. The sequence itself is random: nothing more is promised.
#[verifier::external_body]
fn random_alnum_bytes(n: usize) -> (r: Vec<u8>)
    ensures
        r@.len() == n,
        forall|i: int| 0 <= i < n ==> spec_is_alnum(#[trigger] r@[i]),
{
    rand::Rng::sample_iter(rand::thread_rng(), rand::distributions::Alphanumeric).take(n).collect()
}

/// Relies on `nix::sys::mman::shm_open`, called with
/// `O_RDWR | O_CREAT | O_EXCL` and mode `0600`: on success the result is a
/// file descriptor, which POSIX guarantees to be non-negative; on failure the
/// `errno` value is handed back, `EEXIST` when the name is already taken.
#[verifier::external_body]
fn sys_shm_open_excl(name: &Vec<u8>) -> (r: Result<i32, i32>)
    ensures
        r matches Ok(fd) ==> fd >= 0,
{
    let flag = nix::fcntl::OFlag::O_RDWR | nix::fcntl::OFlag::O_CREAT | nix::fcntl::OFlag::O_EXCL;
    let mode = nix::sys::stat::Mode::S_IRUSR | nix::sys::stat::Mode::S_IWUSR;
    match nix::sys::mman::shm_open(name.as_slice(), flag, mode) {
        Ok(fd) => Ok(fd),
        Err(e) => Err(e as i32),
    }
}

/// Relies on `nix::sys::mman::shm_unlink`: removes the name from the
/// shared-memory namespace; the object lives on while a descriptor holds it.
#[verifier::external_body]
fn sys_shm_unlink(name: &Vec<u8>) -> (r: Result<(), i32>)
{
    match nix::sys::mman::shm_unlink(name.as_slice()) {
        Ok(()) => Ok(()),
        Err(e) => Err(e as i32),
    }
}

/// Relies on `nix::unistd::ftruncate`: sets the size of the open object
/// behind `fd` to `len` bytes.
#[verifier::external_body]
fn sys_ftruncate(fd: i32, len: i64) -> (r: Result<(), i32>)
{
    match nix::unistd::ftruncate(fd, len) {
        Ok(()) => Ok(()),
        Err(e) => Err(e as i32),
    }
}

/// The `errno` that reports an existing name on Linux, where exclusive
/// creation finds the name taken.
const EEXIST_ERRNO: i32 = 17;

/// How many fresh names are tried before giving up.
const SHM_ATTEMPTS: usize = 4096;

/// A POSIX shared-memory object, opened under a random name that was unlinked
/// immediately after creation: only the descriptor keeps the object alive, so
/// a crash leaks no name into the namespace.
pub struct Shm {
    fd: i32,
    name: Vec<u8>,
}

impl Shm {
    /// Whether the object is well formed: a non-negative descriptor and a
    /// name of the generated shape.
    pub closed spec fn wf(&self) -> bool {
        &&& self.fd >= 0
        &&& spec_shm_name_wf(self.name@)
    }

    /// Creates a fresh shared-memory object. A random name of the shape
    /// `/ring-` plus twelve alphanumerics is opened with create-exclusive
    /// semantics and unlinked at once; a name collision is retried with a new
    /// name, and `ExhaustedNames` reports a retry budget spent in vain.
    pub fn new() -> (r: Result<Shm, SysError>)
        ensures
            r matches Ok(shm) ==> shm.wf(),
            r matches Err(e) ==> (e is ExhaustedNames || e is Os),
    {
        let mut attempt: usize = 0;
        while attempt < SHM_ATTEMPTS
            invariant
                attempt <= SHM_ATTEMPTS,
            decreases SHM_ATTEMPTS - attempt,
        {
            let name = shm_name();
            match sys_shm_open_excl(&name) {
                Ok(fd) => {
                    // From here the descriptor is owned: dropping the value
                    // closes it on every path.
                    let shm = Shm { fd, name };
                    match sys_shm_unlink(&shm.name) {
                        Ok(()) => {
                            return Ok(shm);
                        },
                        Err(e) => {
                            return Err(SysError::Os(e));
                        },
                    }
                },
                Err(e) => {
                    if e != EEXIST_ERRNO {
                        return Err(SysError::Os(e));
                    }
                    // The name is taken: try another.
                },
            }
            attempt = attempt + 1;
        }
        Err(SysError::ExhaustedNames)
    }

    /// The descriptor of the object.
    pub fn as_raw_fd(&self) -> (r: i32)
        requires
            self.wf(),
        ensures
            r >= 0,
    {
        self.fd
    }

    /// Sets the object's length to `size` bytes.
    pub fn set_len(&mut self, size: usize) -> (r: Result<(), SysError>)
        requires
            old(self).wf(),
            size <= 0x7fff_ffff_ffff_ffff,
        ensures
            final(self).wf(),
            *final(self) == *old(self),
            r matches Err(e) ==> e is Os,
    {
        match sys_ftruncate(self.fd, size as i64) {
            Ok(()) => Ok(()),
            Err(e) => Err(SysError::Os(e)),
        }
    }

}

impl Drop for Shm {
    /// Relies on `nix::unistd::close`: the descriptor is closed when the
    /// object goes away, destroying the (already unlinked) object once no
    /// mapping holds it.
    #[verifier::external_body]
    fn drop(&mut self)
        opens_invariants none
        no_unwind
    {
        let _ = nix::unistd::close(self.fd);
    }
}

/// Builds a fresh shared-memory name: `/ring-` followed by twelve random
/// alphanumerics.
fn shm_name() -> (r: Vec<u8>)
    ensures
        spec_shm_name_wf(r@),
{
    let mut name: Vec<u8> = Vec::new();
    name.push(47);  // '/'
    name.push(114);  // 'r'
    name.push(105);  // 'i'
    name.push(110);  // 'n'
    name.push(103);  // 'g'
    name.push(45);  // '-'
    let mut suffix = random_alnum_bytes(12);
    name.append(&mut suffix);
    name
}

} // verus!
