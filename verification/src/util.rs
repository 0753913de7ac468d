//! Index type, error taxonomy and bit/alignment utilities shared by the
//! concurrent buffer implementations.
use vstd::arithmetic::power2::is_pow2;
use vstd::prelude::*;

verus! {

/// Index arithmetic type used for byte offsets (mirrors the C client's `index_t`).
pub type IndexT = i32;

/// Error kinds surfaced at the API boundary.
#[derive(Clone, Copy, Debug, PartialEq, Eq, Structural)]
pub enum AeronError {
    /// An argument violated a precondition checked by the callee.
    IllegalArgument,
    /// An indexed access fell outside the backing region.
    OutOfBounds,
    /// A buffer operation could not complete for lack of space.
    InsufficientCapacity,
    /// An observed inconsistency means the operation cannot continue.
    IllegalState,
}

/// Length in bytes of the data blocks used by the CPU cache sub-system.
pub const CACHE_LINE_LENGTH: usize = 64;

/// Least multiple of `a` that is at least `v`.
pub open spec fn align_up(v: int, a: int) -> int {
    ((v + a - 1) / a) * a
}

/// Alignment to the 8-byte record boundary used by both record formats.
pub open spec fn align8(v: int) -> int {
    align_up(v, 8)
}

/// `align_up(v, a)` is the unique multiple of `a` in `[v, v + a)` (for positive `a`, `v >= 0`).
pub proof fn lemma_align_up_props(v: int, a: int)
    requires
        a > 0,
        v >= 0,
    ensures
        v <= align_up(v, a) < v + a,
        align_up(v, a) % a == 0,
{
    let w = v + a - 1;
    let q = w / a;
    assert(w >= 0);
    vstd::arithmetic::div_mod::lemma_fundamental_div_mod(w, a);
    vstd::arithmetic::div_mod::lemma_mod_bound(w, a);
    assert(align_up(v, a) == q * a);
    assert(q * a == w - w % a);
    assert(align_up(v, a) % a == 0) by {
        vstd::arithmetic::div_mod::lemma_mod_multiples_basic(q, a);
    }
}

/// A positive power of two is recognised by the bit trick `n & (n - 1) == 0`.
proof fn lemma_pow2_bit_trick(n: u32)
    ensures
        (n > 0 && n & (n - 1) as u32 == 0) <==> is_pow2(n as int),
    decreases n,
{
    reveal(is_pow2);
    if n == 1 {
        assert(n & (n - 1) as u32 == 0) by (bit_vector)
            requires n == 1;
    } else if n > 1 {
        lemma_pow2_bit_trick(n / 2);
        if n & (n - 1) as u32 == 0 {
            assert(n % 2 == 0 && (n / 2) & (n / 2 - 1) as u32 == 0 && n / 2 > 0)
                by (bit_vector)
                requires n > 1 && n & (n - 1) as u32 == 0;
        }
        if is_pow2(n as int) {
            assert(n % 2 == 0 && (n / 2) & (n / 2 - 1) as u32 == 0 ==> n & (n - 1) as u32 == 0)
                by (bit_vector)
                requires n > 1;
        }
    }
}

/// Quick check that an index is a positive power of two.
pub fn is_power_of_two(idx: IndexT) -> (r: bool)
    ensures
        r <==> is_pow2(idx as int),
{
    if idx <= 0 {
        proof {
            reveal(is_pow2);
        }
        false
    } else {
        let u = idx as u32;
        proof {
            lemma_pow2_bit_trick(u);
        }
        u & (u - 1) == 0
    }
}

/// The two alignments used by the buffer layouts are powers of two.
pub proof fn lemma_alignment_pow2()
    ensures
        is_pow2(8),
        is_pow2(128),
{
    reveal_with_fuel(is_pow2, 9);
}

/// Align a value to the next highest multiple of a power-of-two alignment.
pub fn align(val: usize, alignment: usize) -> (r: usize)
    requires
        is_pow2(alignment as int),
        val + alignment <= usize::MAX,
    ensures
        r == align_up(val as int, alignment as int),
{
    proof {
        reveal(is_pow2);
    }
    let w = val + (alignment - 1);
    let q = w / alignment;
    proof {
        vstd::arithmetic::div_mod::lemma_fundamental_div_mod(w as int, alignment as int);
        vstd::arithmetic::div_mod::lemma_mod_bound(w as int, alignment as int);
        assert(q * alignment == alignment * q);
    }
    q * alignment
}

} // verus!
