//! Bounded work-stealing queues (St³).
//!
//! Positions in the ring buffers are `u32` counters that wrap around; the
//! buffer index of a position is its low bits, that is the position modulo
//! the capacity, which is a power of two.

pub mod fifo;
pub mod lifo;

use vstd::prelude::*;
use vstd::arithmetic::power2::pow2;

verus! {

/// Error returned when stealing is unsuccessful.
#[derive(Debug, Clone, Copy, PartialEq, Eq, Structural)]
pub enum StealError {
    /// No item was stolen.
    Empty,
    /// Another stealing operation is ongoing.
    Busy,
}

impl StealError {
    /// The human-readable description of the error.
    pub fn message(&self) -> (r: &'static str)
        ensures
            *self == StealError::Empty ==> r@ == "cannot steal from empty queue"@,
            *self == StealError::Busy ==> r@ == "a concurrent steal operation is ongoing"@,
    {
        match self {
            StealError::Empty => "cannot steal from empty queue",
            StealError::Busy => "a concurrent steal operation is ongoing",
        }
    }
}

/// 2^32, the period of the wrapping `u32` positions.
pub open spec fn modulus() -> int {
    0x1_0000_0000
}

/// The `u32` position reached from `x` by wrapping arithmetic.
pub closed spec fn w32(x: int) -> u32 {
    (x % modulus()) as u32
}

/// The packed word holding `hi` in the upper and `lo` in the lower 32 bits.
pub open spec fn packed(hi: u32, lo: u32) -> u64 {
    (hi as int * modulus() + lo as int) as u64
}

/// A valid queue capacity: a power of two no larger than 2^31.
pub open spec fn is_capacity(n: nat) -> bool {
    exists|k: nat| k < 32 && n == pow2(k)
}

/// Packs two short integers into a long one.
pub fn pack(value1: u32, value2: u32) -> (r: u64)
    ensures
        r == packed(value1, value2),
{
    let r = ((value1 as u64) << u32::BITS) | value2 as u64;
    assert(((value1 as u64) << 32u32) | value2 as u64 == value1 as u64 * 0x1_0000_0000u64
        + value2 as u64) by (bit_vector);
    r
}

/// Unpacks a long integer into two short ones.
pub fn unpack(value: u64) -> (r: (u32, u32))
    ensures
        packed(r.0, r.1) == value,
        r.0 == value / (modulus() as u64),
        r.1 == value % (modulus() as u64),
{
    let hi = (value >> u32::BITS) as u32;
    let lo = value as u32;
    assert((value >> 32u32) as u32 == value / 0x1_0000_0000u64) by (bit_vector);
    assert(value as u32 == value % 0x1_0000_0000u64) by (bit_vector);
    (hi, lo)
}

/// Unpacking a packed word gives back the two halves.
pub proof fn lemma_unpack_packed(hi: u32, lo: u32)
    ensures
        packed(hi, lo) / (modulus() as u64) == hi,
        packed(hi, lo) % (modulus() as u64) == lo,
{
    let p = packed(hi, lo);
    assert(p == hi as int * 0x1_0000_0000 + lo as int);
    vstd::arithmetic::div_mod::lemma_fundamental_div_mod_converse(
        p as int,
        0x1_0000_0000,
        hi as int,
        lo as int,
    );
}

/// The number of steps from position `a` forward to position `b`.
pub closed spec fn dist(a: u32, b: u32) -> nat {
    ((b as int - a as int) % modulus()) as nat
}

/// Facts about a capacity: it is positive, fits in 31 bits and divides 2^32.
pub proof fn lemma_capacity(n: nat)
    requires
        is_capacity(n),
    ensures
        0 < n <= 0x8000_0000,
        modulus() % (n as int) == 0,
{
    let k = choose|k: nat| k < 32 && n == pow2(k);
    vstd::arithmetic::power2::lemma2_to64();
    vstd::arithmetic::power2::lemma_pow2_pos(k);
    if k < 31 {
        vstd::arithmetic::power2::lemma_pow2_strictly_increases(k, 31);
    }
    vstd::arithmetic::power2::lemma_pow2_adds(k, (32 - k) as nat);
    vstd::arithmetic::power2::lemma_pow2_pos((32 - k) as nat);
    assert(modulus() == pow2(k) * pow2((32 - k) as nat));
    vstd::arithmetic::div_mod::lemma_mod_multiples_basic(
        pow2((32 - k) as nat) as int,
        n as int,
    );
    assert(pow2((32 - k) as nat) as int * n as int == modulus()) by (nonlinear_arith)
        requires
            modulus() == pow2(k) * pow2((32 - k) as nat),
            n == pow2(k),
    ;
}

/// Masking a position with `n - 1` is reducing it modulo `n`.
pub proof fn lemma_mask_is_mod(p: u32, n: nat)
    requires
        is_capacity(n),
    ensures
        (p & ((n - 1) as u32)) as int == p as int % n as int,
{
    let k = choose|k: nat| k < 32 && n == pow2(k);
    lemma_capacity(n);
    vstd::bits::lemma_u32_low_bits_mask_is_mod(p, k);
    assert(vstd::bits::low_bits_mask(k) == n - 1);
}

/// A wrapped position lands on the same buffer slot as the unwrapped one.
pub proof fn lemma_wrap_slot(x: int, n: nat)
    requires
        is_capacity(n),
    ensures
        (w32(x) as int) % (n as int) == x % (n as int),
{
    lemma_capacity(n);
    let m = modulus() / (n as int);
    assert(m * (n as int) == modulus()) by {
        vstd::arithmetic::div_mod::lemma_fundamental_div_mod(modulus(), n as int);
    }
    assert(m > 0) by (nonlinear_arith)
        requires
            m * (n as int) == modulus(),
            n > 0,
    ;
    vstd::arithmetic::div_mod::lemma_mod_mod(x, n as int, m);
    assert((n as int) * m == modulus()) by (nonlinear_arith)
        requires
            m * (n as int) == modulus(),
    ;
}

/// `wrapping_sub` computes the forward distance between two positions.
pub proof fn lemma_dist_bounds(a: u32, b: u32)
    ensures
        dist(a, b) < modulus(),
        dist(a, b) == (if b >= a { b - a } else { b - a + modulus() }),
        dist(a, b) == 0 <==> a == b,
{
}

/// Moving forward `dist(a, b)` steps from `a` reaches `b`.
pub proof fn lemma_dist_reaches(a: u32, b: u32)
    ensures
        w32(a + dist(a, b)) == b,
{
}

/// Position `a + dist(a, b)` falls on the slot of `b`.
pub proof fn lemma_dist_slot(a: u32, b: u32, n: nat)
    requires
        is_capacity(n),
    ensures
        (a + dist(a, b)) % (n as int) == (b as int) % (n as int),
{
    lemma_wrap_slot(a + dist(a, b), n);
}

/// Fewer than `n` consecutive positions fall on pairwise distinct slots.
pub proof fn lemma_slots_distinct(a: int, i: int, j: int, n: nat)
    requires
        0 < n,
        i < j < i + n,
    ensures
        (a + i) % (n as int) != (a + j) % (n as int),
{
    vstd::arithmetic::div_mod::lemma_mod_equivalence(a + j, a + i, n as int);
    vstd::arithmetic::div_mod::lemma_small_mod((j - i) as nat, n);
}

/// Distances add up along the way from `a` over `b` to `c`.
pub proof fn lemma_dist_add(a: u32, b: u32, k: nat)
    requires
        dist(a, b) + k < modulus(),
    ensures
        dist(a, w32(b + k)) == dist(a, b) + k,
        dist(b, w32(b + k)) == k,
{
}

/// Positions whose difference is a multiple of 2^32 share a slot.
pub proof fn lemma_same_slot(x: int, y: int, n: nat)
    requires
        is_capacity(n),
        (x - y) % modulus() == 0,
    ensures
        x % (n as int) == y % (n as int),
{
    lemma_capacity(n);
    let q = (x - y) / modulus();
    vstd::arithmetic::div_mod::lemma_fundamental_div_mod(x - y, modulus());
    let m = modulus() / (n as int);
    vstd::arithmetic::div_mod::lemma_fundamental_div_mod(modulus(), n as int);
    assert(x == (q * m) * (n as int) + y) by (nonlinear_arith)
        requires
            modulus() == m * (n as int),
            x - y == modulus() * q + (x - y) % modulus(),
            (x - y) % modulus() == 0,
    ;
    vstd::arithmetic::div_mod::lemma_mod_multiples_vanish(q * m, y, n as int);
}

/// The offset of slot `j` from the slot of position `p`.
pub open spec fn slot_offset(p: int, j: int, n: nat) -> int {
    (j - p) % (n as int)
}

/// Slot `(p + i) % n` is at offset `i` from position `p`, for `i < n`.
pub proof fn lemma_slot_offset(p: int, i: int, n: nat)
    requires
        0 < n,
        0 <= i < n,
    ensures
        slot_offset(p, (p + i) % (n as int), n) == i,
{
    vstd::arithmetic::div_mod::lemma_fundamental_div_mod(p + i, n as int);
    let q = (p + i) / (n as int);
    assert((p + i) % (n as int) - p == i - (n as int) * q);
    vstd::arithmetic::div_mod::lemma_mod_multiples_vanish(-q, i, n as int);
    assert(i - (n as int) * q == (-q) * (n as int) + i) by (nonlinear_arith);
    vstd::arithmetic::div_mod::lemma_small_mod(i as nat, n);
}

/// Slot `(p - b) % n` is at offset `n - b` from position `p`, for `0 < b <= n`.
pub proof fn lemma_slot_offset_back(p: int, b: int, n: nat)
    requires
        0 < b <= n,
    ensures
        (p - b) % (n as int) == (p + (n - b)) % (n as int),
        slot_offset(p, (p - b) % (n as int), n) == n - b,
{
    vstd::arithmetic::div_mod::lemma_mod_multiples_vanish(1, p - b, n as int);
    assert(1 * (n as int) + (p - b) == p + (n - b));
    if b == n {
        vstd::arithmetic::div_mod::lemma_mod_multiples_vanish(-1, p, n as int);
        assert(-1 * (n as int) + p == p - b);
        lemma_slot_offset(p, 0, n);
    } else {
        lemma_slot_offset(p, n - b, n);
    }
}

/// A slot at offset `i` from position `p` is the slot of position `p + i`.
pub proof fn lemma_slot_at_offset(p: int, j: int, n: nat)
    requires
        0 < n,
        0 <= j < n,
    ensures
        (p + slot_offset(p, j, n)) % (n as int) == j,
{
    let i = slot_offset(p, j, n);
    vstd::arithmetic::div_mod::lemma_fundamental_div_mod(j - p, n as int);
    let q = (j - p) / (n as int);
    assert(p + i == j - (n as int) * q);
    vstd::arithmetic::div_mod::lemma_mod_multiples_vanish(-q, j, n as int);
    assert(j - (n as int) * q == (-q) * (n as int) + j) by (nonlinear_arith);
    vstd::arithmetic::div_mod::lemma_small_mod(j as nat, n);
}

/// The slots after writing `xs` at consecutive positions starting at `p`.
pub open spec fn write_run<A>(slots: Seq<A>, p: int, xs: Seq<A>) -> Seq<A>
    decreases xs.len(),
{
    if xs.len() == 0 {
        slots
    } else {
        write_run(slots, p, xs.drop_last()).update((p + xs.len() - 1) % (slots.len() as int), xs.last())
    }
}

/// Writing at most a buffer's worth of items puts item `i` at offset `i`
/// from `p` and leaves the other slots alone.
pub proof fn lemma_write_run<A>(slots: Seq<A>, p: int, xs: Seq<A>)
    requires
        slots.len() > 0,
        xs.len() <= slots.len(),
    ensures
        write_run(slots, p, xs).len() == slots.len(),
        forall|j: int|
            0 <= j < slots.len() ==> #[trigger] write_run(slots, p, xs)[j] == (if slot_offset(
                p,
                j,
                slots.len(),
            ) < xs.len() {
                xs[slot_offset(p, j, slots.len())]
            } else {
                slots[j]
            }),
    decreases xs.len(),
{
    let n = slots.len();
    if xs.len() > 0 {
        let ys = xs.drop_last();
        lemma_write_run(slots, p, ys);
        let m = xs.len() as int;
        let k = (p + m - 1) % (n as int);
        lemma_slot_offset(p, m - 1, n);
        assert forall|j: int| 0 <= j < n implies #[trigger] write_run(slots, p, xs)[j] == (
        if slot_offset(p, j, n) < xs.len() {
            xs[slot_offset(p, j, n)]
        } else {
            slots[j]
        }) by {
            if j != k {
                lemma_slot_at_offset(p, j, n);
                assert(slot_offset(p, j, n) != m - 1);
            }
        }
    }
}

/// A position that wraps to `y` differs from `y` by a multiple of 2^32.
pub proof fn lemma_w32_cong(x: int, y: u32)
    requires
        w32(x) == y,
    ensures
        (x - y) % modulus() == 0,
{
    vstd::arithmetic::div_mod::lemma_fundamental_div_mod(x, modulus());
    let q = x / modulus();
    vstd::arithmetic::div_mod::lemma_mod_multiples_vanish(q, 0, modulus());
    assert(x - y == q * modulus() + 0) by (nonlinear_arith)
        requires
            x == modulus() * q + x % modulus(),
            x % modulus() == y,
    ;
}

/// Wrapping is compatible with adding further offsets.
pub proof fn lemma_w32_add(x: int, k: int)
    ensures
        w32(w32(x) + k) == w32(x + k),
{
    vstd::arithmetic::div_mod::lemma_add_mod_noop(x, k, modulus());
    vstd::arithmetic::div_mod::lemma_mod_twice(k, modulus());
    vstd::arithmetic::div_mod::lemma_add_mod_noop(x % modulus(), k, modulus());
}

/// Wrapping a position: the remainder modulo 2^32, which for positions
/// within one period of the `u32` range is a single correction.
pub proof fn lemma_w32(x: int)
    ensures
        w32(x) as int == x % modulus(),
        0 <= x < modulus() ==> w32(x) == x,
        modulus() <= x < 2 * modulus() ==> w32(x) == x - modulus(),
        -modulus() <= x < 0 ==> w32(x) == x + modulus(),
{
}

/// Subtracting a wrapped position is subtracting the position.
pub proof fn lemma_w32_sub(a: int, x: int)
    ensures
        w32(a - w32(x)) == w32(a - x),
{
    lemma_w32_add(x, -x);
    vstd::arithmetic::div_mod::lemma_sub_mod_noop(a, x, modulus());
    vstd::arithmetic::div_mod::lemma_sub_mod_noop(a, x % modulus(), modulus());
    vstd::arithmetic::div_mod::lemma_mod_twice(x, modulus());
}

/// Stepping the end position back by one shortens a non-empty distance by one.
pub proof fn lemma_dist_sub(a: u32, b: u32)
    requires
        dist(a, b) > 0,
    ensures
        dist(a, w32(b - 1)) == dist(a, b) - 1,
{
}

/// Stepping the start position forward by one shortens a non-empty distance by one.
pub proof fn lemma_dist_sub_start(a: u32, b: u32)
    requires
        dist(a, b) > 0,
    ensures
        dist(w32(a + 1), b) == dist(a, b) - 1,
{
}

/// From `b`, the position `n` steps past `a` is `n - dist(a, b)` steps away.
pub proof fn lemma_dist_rest(a: u32, b: u32, n: nat)
    requires
        dist(a, b) <= n < modulus(),
    ensures
        dist(b, w32(a + n)) == n - dist(a, b),
{
    let d = dist(a, b);
    lemma_dist_reaches(a, b);
    lemma_w32_add(a + d, n - d);
    assert(a + d + (n - d) == a + n);
    lemma_dist_add(b, b, (n - d) as nat);
}

/// Two forward distances that add up to less than 2^32 compose.
pub proof fn lemma_dist_compose(a: u32, b: u32, c: u32)
    requires
        dist(a, b) + dist(b, c) < modulus(),
    ensures
        dist(a, c) == dist(a, b) + dist(b, c),
{
}

} // verus!
