//! Bit-level facts and primitives on `u64`, the common ground of every
//! backing width.
use vstd::arithmetic::div_mod::lemma_small_mod;
use vstd::arithmetic::power2::{
    lemma2_to64, lemma2_to64_rest, lemma_pow2_pos, lemma_pow2_strictly_increases, lemma_pow2_unfold,
    pow2,
};
use vstd::bits::{
    lemma_u64_low_bits_mask_is_mod, lemma_u64_pow2_no_overflow, lemma_u64_shl_is_mul,
    lemma_u64_shr_is_div, low_bits_mask,
};
use vstd::prelude::*;

verus! {

/// Bit `i` (0 is the least significant) of `v`.
pub open spec fn bit(v: nat, i: nat) -> bool {
    (v / pow2(i)) % 2 == 1
}

/// For a `u64`, reading a bit by shifting and masking agrees with [`bit`].
pub proof fn lemma_bit_u64(v: u64, i: u64)
    requires
        i < 64,
    ensures
        (v >> i) & 1 == (v as nat / pow2(i as nat)) % 2,
        bit(v as nat, i as nat) == ((v >> i) & 1 == 1),
{
    lemma_u64_shr_is_div(v, i);
    let w = v >> i;
    assert(w & 1 == w % 2) by (bit_vector);
}

/// `1 << i` is `2^i` for every shift within a `u64`.
pub proof fn lemma_one_shl(i: u64)
    requires
        i < 64,
    ensures
        (1u64 << i) == pow2(i as nat),
{
    lemma_u64_pow2_no_overflow(i as nat);
    lemma_u64_shl_is_mul(1, i);
}

/// What `x | (1 << o)` adds to `x`.
pub proof fn lemma_or_bit(x: u64, o: u64)
    by (bit_vector)
    requires
        o < 64,
    ensures
        (x >> o) & 1 == 1 ==> x | (1u64 << o) == x,
        (x >> o) & 1 != 1 ==> x | (1u64 << o) == x + (1u64 << o),
{
}

/// Setting a bit below `n` keeps a value below `2^n`.
pub proof fn lemma_or_bit_below(x: u64, o: u64, n: u64)
    by (bit_vector)
    requires
        o < n < 64,
        x < (1u64 << n),
    ensures
        x | (1u64 << o) < (1u64 << n),
{
}

/// What `x & !(1 << o)` takes from `x`.
pub proof fn lemma_and_not_bit(x: u64, o: u64)
    by (bit_vector)
    requires
        o < 64,
    ensures
        (x >> o) & 1 == 1 ==> x & !(1u64 << o) == x - (1u64 << o),
        (x >> o) & 1 != 1 ==> x & !(1u64 << o) == x,
{
}

/// The mask of the `n` low bits: `2^n - 1`, also for `n == 64`, where
/// `(1 << n) - 1` would shift by the whole width.
pub fn low_mask(n: usize) -> (r: u64)
    requires
        n <= 64,
    ensures
        r == pow2(n as nat) - 1,
{
    if n == 64 {
        proof {
            lemma2_to64_rest();
        }
        u64::MAX
    } else {
        proof {
            lemma_one_shl(n as u64);
            lemma_pow2_pos(n as nat);
        }
        (1u64 << (n as u64)) - 1
    }
}

/// `x` with every bit at or above position `n` cleared.
pub fn truncate(x: u64, n: usize) -> (r: u64)
    requires
        n <= 64,
    ensures
        r == x as nat % pow2(n as nat),
{
    let m = low_mask(n);
    proof {
        if n < 64 {
            lemma_u64_pow2_no_overflow(n as nat);
            lemma_u64_low_bits_mask_is_mod(x, n as nat);
            assert(low_bits_mask(n as nat) == m);
            assert((pow2(n as nat) as u64) as nat == pow2(n as nat));
        } else {
            lemma2_to64_rest();
            assert(x & 0xffff_ffff_ffff_ffffu64 == x) by (bit_vector);
            lemma_small_mod(x as nat, pow2(64));
        }
    }
    x & m
}

/// `r` holds the `n` low bits of `v` in reverse order.
pub open spec fn reverses(r: nat, v: nat, n: nat) -> bool {
    forall|i: nat| i < n ==> #[trigger] bit(r, i) == bit(v, (n - 1 - i) as nat)
}

/// Shifting `r` left by one and putting `b` in the freed bit.
proof fn lemma_push_bit(r: u64, b: u64, j: u64)
    by (bit_vector)
    requires
        r < 0x8000_0000_0000_0000u64,
        b <= 1,
        j < 63,
    ensures
        (r << 1u64) | b == 2 * r + b,
        (((r << 1u64) | b) >> 0u64) & 1 == b,
        (((r << 1u64) | b) >> ((j + 1) as u64)) & 1 == (r >> j) & 1,
{
}

/// The `n` low bits of `x` in reverse order.
pub fn reverse_low(x: u64, n: usize) -> (r: u64)
    requires
        n <= 64,
    ensures
        r < pow2(n as nat),
        reverses(r as nat, x as nat, n as nat),
{
    let mut r: u64 = 0;
    let mut i: usize = 0;
    proof {
        lemma2_to64();
    }
    while i < n
        invariant
            i <= n <= 64,
            r < pow2(i as nat),
            reverses(r as nat, x as nat, i as nat),
        decreases n - i,
    {
        let b = (x >> (i as u64)) & 1;
        proof {
            lemma2_to64_rest();
            if i < 63 {
                lemma_pow2_strictly_increases(i as nat, 63);
            }
            assert(b <= 1) by (bit_vector)
                requires
                    b == (x >> (i as u64)) & 1,
            ;
        }
        let next = (r << 1u64) | b;
        proof {
            lemma_push_bit(r, b, 0);
            lemma_pow2_unfold((i + 1) as nat);
            lemma_bit_u64(x, i as u64);
            assert forall|j: nat| j < i + 1 implies #[trigger] bit(next as nat, j) == bit(
                x as nat,
                (i + 1 - 1 - j) as nat,
            ) by {
                lemma_bit_u64(next, j as u64);
                if j > 0 {
                    lemma_push_bit(r, b, (j - 1) as u64);
                    lemma_bit_u64(r, (j - 1) as u64);
                    assert(bit(r as nat, (j - 1) as nat) == bit(x as nat, (i - 1 - (j - 1)) as nat));
                }
            }
        }
        r = next;
        i = i + 1;
    }
    r
}

} // verus!
