//! The bit vector itself: construction, masking, bit access, reversal and
//! the binary operations with length reconciliation.
use vstd::arithmetic::div_mod::{
    lemma_basic_div, lemma_mod_add_multiples_vanish, lemma_mod_multiples_basic, lemma_small_mod,
    lemma_sub_mod_noop,
};
use vstd::arithmetic::mul::{lemma_mul_is_associative, lemma_mul_is_commutative};
use vstd::arithmetic::power2::{
    lemma2_to64, lemma2_to64_rest, lemma_pow2_adds, lemma_pow2_pos, lemma_pow2_strictly_increases,
    pow2,
};
use vstd::bits::lemma_u64_shr_is_div;
use vstd::prelude::*;

use crate::bits::{
    bit, lemma_and_not_bit, lemma_bit_u64, lemma_one_shl, lemma_or_bit, lemma_or_bit_below,
    low_mask, reverse_low, reverses, truncate,
};
use crate::internals::min;
use crate::error::BvError;
use crate::word::Word;

verus! {

/// A backing integer of type `T` together with a logical length: the number of
/// low-order bits that are significant. The bits at or above the length are
/// always zero.
#[derive(Debug, PartialEq, Eq, Clone, Copy)]
pub struct NanoBV<T = u32> {
    data: T,
    length: usize,
}

/// `v` with bit `i` set.
pub open spec fn with_bit_set(v: nat, i: nat) -> nat {
    if bit(v, i) {
        v
    } else {
        v + pow2(i)
    }
}

/// `v` with bit `i` cleared.
pub open spec fn with_bit_cleared(v: nat, i: nat) -> nat {
    if bit(v, i) {
        (v - pow2(i)) as nat
    } else {
        v
    }
}

/// The length of the result of a binary operation: the shorter of the two.
pub open spec fn shorter(a: nat, b: nat) -> nat {
    if a <= b {
        a
    } else {
        b
    }
}

/// `2^a <= 2^b` whenever `a <= b`.
pub proof fn lemma_pow2_le(a: nat, b: nat)
    requires
        a <= b,
    ensures
        pow2(a) <= pow2(b),
{
    if a < b {
        lemma_pow2_strictly_increases(a, b);
    }
}

impl<T> NanoBV<T> {
    /// The logical length.
    pub closed spec fn spec_len(self) -> nat {
        self.length as nat
    }

    /// Retrieve length of the current NanoBV.
    pub fn len(&self) -> (r: usize)
        ensures
            r == self.spec_len(),
    {
        self.length
    }

    /// Whether the length is zero, which no vector built by this library has.
    pub fn is_empty(&self) -> (r: bool)
        ensures
            r == (self.spec_len() == 0),
    {
        self.length == 0
    }
}

impl<T: Word> NanoBV<T> {
    /// The stored value as a natural number.
    pub closed spec fn spec_val(self) -> nat {
        self.data.as_nat()
    }

    /// A length that a vector backed by `T` may have.
    pub open spec fn valid_len(n: nat) -> bool {
        1 <= n <= T::width()
    }

    /// The invariant: a valid length, and no bit set at or above it.
    pub open spec fn wf(self) -> bool {
        &&& Self::valid_len(self.spec_len())
        &&& self.spec_val() < pow2(self.spec_len())
    }

    /// Two vectors of equal length and value are the same vector.
    pub proof fn lemma_ext(a: Self, b: Self)
        requires
            a.spec_len() == b.spec_len(),
            a.spec_val() == b.spec_val(),
        ensures
            a == b,
    {
        T::lemma_word(a.data, b.data);
    }

    /// A well-formed vector of the given length and value.
    pub open spec fn is_value(self, length: nat, value: nat) -> bool {
        &&& self.wf()
        &&& self.spec_len() == length
        &&& self.spec_val() == value
    }

    /// The largest value of `length` bits, `2^length - 1`, which is the
    /// maximum of `T` when `length` is the width of `T`.
    pub fn upper_bound(length: usize) -> (r: T)
        requires
            Self::valid_len(length as nat),
        ensures
            r.as_nat() == pow2(length as nat) - 1,
    {
        proof {
            T::lemma_width();
            lemma_pow2_le(length as nat, T::width());
            lemma_pow2_pos(length as nat);
        }
        T::from_u64(low_mask(length))
    }

    /// The vector of the given valid length whose value is `data` truncated
    /// to that length.
    fn masked(data: u64, length: usize) -> (r: Self)
        requires
            Self::valid_len(length as nat),
        ensures
            r.is_value(length as nat, data as nat % pow2(length as nat)),
    {
        proof {
            T::lemma_width();
            lemma_pow2_le(length as nat, T::width());
            lemma_pow2_pos(length as nat);
        }
        let t = truncate(data, length);
        NanoBV { data: T::from_u64(t), length }
    }

    /// Create a new [`NanoBV`] from `data`, dropping its bits at or above
    /// `length`.
    pub fn new(data: T, length: usize) -> (r: Result<Self, BvError>)
        ensures
            match r {
                Ok(v) => Self::valid_len(length as nat) && v.is_value(
                    length as nat,
                    data.as_nat() % pow2(length as nat),
                ),
                Err(e) => !Self::valid_len(length as nat) && e == BvError::InvalidLength,
            },
    {
        if length < 1 || length > T::bit_width() {
            Err(BvError::InvalidLength)
        } else {
            Ok(Self::masked(data.to_u64(), length))
        }
    }

    /// Create a [`NanoBV`] initialized to 0 with length equivalent to the size
    /// of the stored type.
    pub fn default() -> (r: Self)
        ensures
            r.is_value(T::width(), 0),
    {
        proof {
            T::lemma_width();
            lemma_pow2_pos(T::width());
        }
        Self::masked(0, T::bit_width())
    }

    /// Retrieve value of the current NanoBV.
    pub fn value(&self) -> (r: T)
        ensures
            r.as_nat() == self.spec_val(),
    {
        self.data
    }

    /// Set value of the current NanoBV while retaining length.
    pub fn set_value(&self, value: T) -> (r: Self)
        requires
            self.wf(),
        ensures
            r.is_value(self.spec_len(), value.as_nat() % pow2(self.spec_len())),
    {
        Self::masked(value.to_u64(), self.length)
    }

    /// Create [`NanoBV`] with all bits unset.
    pub fn zeros(length: usize) -> (r: Result<Self, BvError>)
        ensures
            match r {
                Ok(v) => Self::valid_len(length as nat) && v.is_value(length as nat, 0),
                Err(e) => !Self::valid_len(length as nat) && e == BvError::InvalidLength,
            },
    {
        if length < 1 || length > T::bit_width() {
            Err(BvError::InvalidLength)
        } else {
            proof {
                lemma_pow2_pos(length as nat);
            }
            Ok(Self::masked(0, length))
        }
    }

    /// Create [`NanoBV`] with all bits set.
    pub fn ones(length: usize) -> (r: Result<Self, BvError>)
        ensures
            match r {
                Ok(v) => Self::valid_len(length as nat) && v.is_value(
                    length as nat,
                    (pow2(length as nat) - 1) as nat,
                ),
                Err(e) => !Self::valid_len(length as nat) && e == BvError::InvalidLength,
            },
    {
        if length < 1 || length > T::bit_width() {
            Err(BvError::InvalidLength)
        } else {
            proof {
                T::lemma_width();
                lemma_pow2_pos(length as nat);
                lemma_small_mod(
                    (pow2(length as nat) - 1) as nat,
                    pow2(length as nat),
                );
            }
            Ok(Self::masked(low_mask(length), length))
        }
    }

    /// Clear all bits.
    pub fn clear(&self) -> (r: Self)
        requires
            self.wf(),
        ensures
            r.is_value(self.spec_len(), 0),
    {
        proof {
            lemma_pow2_pos(self.spec_len());
        }
        Self::masked(0, self.length)
    }

    /// Set all bits.
    pub fn set(&self) -> (r: Self)
        requires
            self.wf(),
        ensures
            r.is_value(self.spec_len(), (pow2(self.spec_len()) - 1) as nat),
    {
        proof {
            T::lemma_width();
            lemma_pow2_pos(self.spec_len());
            lemma_small_mod(
                (pow2(self.spec_len()) - 1) as nat,
                pow2(self.spec_len()),
            );
        }
        Self::masked(low_mask(self.length), self.length)
    }

    /// Get bit at offset, as 0 or 1.
    pub fn get_bit(&self, offset: T) -> (r: Result<T, BvError>)
        requires
            self.wf(),
        ensures
            match r {
                Ok(b) => offset.as_nat() < self.spec_len() && b.as_nat() == (self.spec_val()
                    / pow2(offset.as_nat())) % 2,
                Err(e) => offset.as_nat() >= self.spec_len() && e == BvError::OutOfRange,
            },
    {
        let o = offset.to_u64();
        if o >= self.length as u64 {
            return Err(BvError::OutOfRange);
        }
        let x = self.data.to_u64();
        proof {
            T::lemma_width();
            lemma_bit_u64(x, o);
            lemma2_to64();
            lemma_pow2_le(8, T::width());
        }
        Ok(T::from_u64((x >> o) & 1))
    }

    /// Set bit at offset.
    pub fn set_bit(&self, offset: T) -> (r: Result<Self, BvError>)
        requires
            self.wf(),
        ensures
            match r {
                Ok(v) => offset.as_nat() < self.spec_len() && v.is_value(
                    self.spec_len(),
                    with_bit_set(self.spec_val(), offset.as_nat()),
                ),
                Err(e) => offset.as_nat() >= self.spec_len() && e == BvError::OutOfRange,
            },
    {
        let o = offset.to_u64();
        if o >= self.length as u64 {
            return Err(BvError::OutOfRange);
        }
        let x = self.data.to_u64();
        proof {
            T::lemma_width();
        }
        let s = x | (1u64 << o);
        proof {
            T::lemma_width();
            lemma_bit_u64(x, o);
            lemma_one_shl(o);
            lemma_or_bit(x, o);
            if self.length < 64 {
                lemma_one_shl(self.length as u64);
                lemma_or_bit_below(x, o, self.length as u64);
            } else {
                lemma2_to64_rest();
            }
            lemma_small_mod(s as nat, pow2(self.spec_len()));
        }
        Ok(Self::masked(s, self.length))
    }

    /// Clear bit at offset.
    pub fn clear_bit(&self, offset: T) -> (r: Result<Self, BvError>)
        requires
            self.wf(),
        ensures
            match r {
                Ok(v) => offset.as_nat() < self.spec_len() && v.is_value(
                    self.spec_len(),
                    with_bit_cleared(self.spec_val(), offset.as_nat()),
                ),
                Err(e) => offset.as_nat() >= self.spec_len() && e == BvError::OutOfRange,
            },
    {
        let o = offset.to_u64();
        if o >= self.length as u64 {
            return Err(BvError::OutOfRange);
        }
        let x = self.data.to_u64();
        proof {
            T::lemma_width();
        }
        let c = x & !(1u64 << o);
        proof {
            T::lemma_width();
            lemma_bit_u64(x, o);
            lemma_one_shl(o);
            lemma_and_not_bit(x, o);
            lemma_small_mod(c as nat, pow2(self.spec_len()));
        }
        Ok(Self::masked(c, self.length))
    }

    /// Assign bit at offset: clear it where `value` is 0, set it otherwise.
    pub fn assign_bit(&self, value: T, offset: T) -> (r: Result<Self, BvError>)
        requires
            self.wf(),
        ensures
            match r {
                Ok(v) => offset.as_nat() < self.spec_len() && v.is_value(
                    self.spec_len(),
                    if value.as_nat() == 0 {
                        with_bit_cleared(self.spec_val(), offset.as_nat())
                    } else {
                        with_bit_set(self.spec_val(), offset.as_nat())
                    },
                ),
                Err(e) => offset.as_nat() >= self.spec_len() && e == BvError::OutOfRange,
            },
    {
        if value.to_u64() == 0 {
            self.clear_bit(offset)
        } else {
            self.set_bit(offset)
        }
    }

    /// Reverse the order of the significant bits.
    pub fn reverse(&self) -> (r: Self)
        requires
            self.wf(),
        ensures
            r.wf(),
            r.spec_len() == self.spec_len(),
            reverses(r.spec_val(), self.spec_val(), self.spec_len()),
    {
        proof {
            T::lemma_width();
        }
        let rev = reverse_low(self.data.to_u64(), self.length);
        proof {
            lemma_small_mod(rev as nat, pow2(self.spec_len()));
        }
        Self::masked(rev, self.length)
    }

    /// The vector of length `n` whose value is `raw` reduced modulo `2^n`.
    fn reduce(raw: u128, n: usize) -> (r: Self)
        requires
            Self::valid_len(n as nat),
        ensures
            r.is_value(n as nat, raw as nat % pow2(n as nat)),
    {
        proof {
            T::lemma_width();
            lemma_pow2_pos(n as nat);
            lemma2_to64_rest();
            lemma_pow2_le(n as nat, 64);
        }
        let m: u128 = low_mask(n) as u128 + 1;
        let t = raw % m;
        proof {
            lemma_small_mod(t as nat, pow2(n as nat));
        }
        Self::masked(t as u64, n)
    }

    /// Sum, truncated to the shorter length.
    pub fn bvadd(&self, rhs: Self) -> (r: Self)
        requires
            self.wf(),
            rhs.wf(),
        ensures
            ({
                let n = shorter(self.spec_len(), rhs.spec_len());
                r.is_value(n, (self.spec_val() + rhs.spec_val()) as nat % pow2(n))
            }),
    {
        let n = min(self.length, rhs.length);
        let raw = self.data.to_u64() as u128 + rhs.data.to_u64() as u128;
        Self::reduce(raw, n)
    }

    /// Bitwise and, truncated to the shorter length.
    pub fn bvand(&self, rhs: Self) -> (r: Self)
        requires
            self.wf(),
            rhs.wf(),
        ensures
            ({
                let n = shorter(self.spec_len(), rhs.spec_len());
                r.is_value(n, (self.spec_val() as u64 & rhs.spec_val() as u64) as nat % pow2(n))
            }),
    {
        let n = min(self.length, rhs.length);
        let raw = self.data.to_u64() & rhs.data.to_u64();
        Self::reduce(raw as u128, n)
    }

    /// Bitwise or, truncated to the shorter length.
    pub fn bvor(&self, rhs: Self) -> (r: Self)
        requires
            self.wf(),
            rhs.wf(),
        ensures
            ({
                let n = shorter(self.spec_len(), rhs.spec_len());
                r.is_value(n, (self.spec_val() as u64 | rhs.spec_val() as u64) as nat % pow2(n))
            }),
    {
        let n = min(self.length, rhs.length);
        let raw = self.data.to_u64() | rhs.data.to_u64();
        Self::reduce(raw as u128, n)
    }

    /// Bitwise exclusive or, truncated to the shorter length.
    pub fn bvxor(&self, rhs: Self) -> (r: Self)
        requires
            self.wf(),
            rhs.wf(),
        ensures
            ({
                let n = shorter(self.spec_len(), rhs.spec_len());
                r.is_value(n, (self.spec_val() as u64 ^ rhs.spec_val() as u64) as nat % pow2(n))
            }),
    {
        let n = min(self.length, rhs.length);
        let raw = self.data.to_u64() ^ rhs.data.to_u64();
        Self::reduce(raw as u128, n)
    }

    /// Difference, wrapping modulo `2^n` for the shorter length `n`.
    pub fn bvsub(&self, rhs: Self) -> (r: Self)
        requires
            self.wf(),
            rhs.wf(),
        ensures
            ({
                let n = shorter(self.spec_len(), rhs.spec_len());
                r.is_value(n, ((self.spec_val() - rhs.spec_val()) % (pow2(n) as int)) as nat)
            }),
    {
        let n = min(self.length, rhs.length);
        proof {
            T::lemma_width();
            lemma_pow2_pos(n as nat);
            lemma2_to64_rest();
            lemma_pow2_le(n as nat, 64);
        }
        let a = truncate(self.data.to_u64(), n);
        let b = truncate(rhs.data.to_u64(), n);
        let m: u128 = low_mask(n) as u128 + 1;
        let raw = a as u128 + m - b as u128;
        proof {
            let x = self.spec_val() as int;
            let y = rhs.spec_val() as int;
            let p = pow2(n as nat) as int;
            lemma_sub_mod_noop(x, y, p);
            lemma_mod_add_multiples_vanish(a - b, p);
            assert(raw == p + (a - b));
        }
        Self::reduce(raw, n)
    }

    /// Product, truncated to the shorter length.
    pub fn bvmul(&self, rhs: Self) -> (r: Self)
        requires
            self.wf(),
            rhs.wf(),
        ensures
            ({
                let n = shorter(self.spec_len(), rhs.spec_len());
                r.is_value(n, (self.spec_val() * rhs.spec_val()) % pow2(n))
            }),
    {
        let n = min(self.length, rhs.length);
        let a = self.data.to_u64() as u128;
        let b = rhs.data.to_u64() as u128;
        proof {
            assert(a * b <= 0xffff_ffff_ffff_ffffu128 * 0xffff_ffff_ffff_ffffu128) by (nonlinear_arith)
                requires
                    a <= 0xffff_ffff_ffff_ffffu128,
                    b <= 0xffff_ffff_ffff_ffffu128,
            ;
        }
        Self::reduce(a * b, n)
    }

    /// Quotient, truncated to the shorter length; a zero divisor is a fault.
    pub fn bvdiv(&self, rhs: Self) -> (r: Result<Self, BvError>)
        requires
            self.wf(),
            rhs.wf(),
        ensures
            match r {
                Ok(v) => rhs.spec_val() != 0 && ({
                    let n = shorter(self.spec_len(), rhs.spec_len());
                    v.is_value(n, (self.spec_val() / rhs.spec_val()) % pow2(n))
                }),
                Err(e) => rhs.spec_val() == 0 && e == BvError::DivisionFault,
            },
    {
        let b = rhs.data.to_u64();
        if b == 0 {
            return Err(BvError::DivisionFault);
        }
        let n = min(self.length, rhs.length);
        Ok(Self::reduce((self.data.to_u64() / b) as u128, n))
    }

    /// Remainder, truncated to the shorter length; a zero divisor is a fault.
    pub fn bvrem(&self, rhs: Self) -> (r: Result<Self, BvError>)
        requires
            self.wf(),
            rhs.wf(),
        ensures
            match r {
                Ok(v) => rhs.spec_val() != 0 && ({
                    let n = shorter(self.spec_len(), rhs.spec_len());
                    v.is_value(n, (self.spec_val() % rhs.spec_val()) % pow2(n))
                }),
                Err(e) => rhs.spec_val() == 0 && e == BvError::DivisionFault,
            },
    {
        let b = rhs.data.to_u64();
        if b == 0 {
            return Err(BvError::DivisionFault);
        }
        let n = min(self.length, rhs.length);
        Ok(Self::reduce((self.data.to_u64() % b) as u128, n))
    }

    /// Shift left by the value of `rhs`, truncated to the shorter length.
    /// This is multiplication by `2^rhs`: a shift by the length or more
    /// gives zero.
    pub fn bvshl(&self, rhs: Self) -> (r: Self)
        requires
            self.wf(),
            rhs.wf(),
        ensures
            ({
                let n = shorter(self.spec_len(), rhs.spec_len());
                r.is_value(n, (self.spec_val() * pow2(rhs.spec_val())) % pow2(n))
            }),
    {
        let n = min(self.length, rhs.length);
        let a = self.data.to_u64();
        let s = rhs.data.to_u64();
        proof {
            T::lemma_width();
            lemma_pow2_pos(n as nat);
        }
        if s >= n as u64 {
            proof {
                let x = self.spec_val() as int;
                let k = (s - n) as nat;
                lemma_pow2_adds(n as nat, k);
                lemma_mul_is_associative(x, pow2(k) as int, pow2(n as nat) as int);
                lemma_mul_is_commutative(x, pow2(s as nat) as int);
                lemma_mul_is_commutative(pow2(k) as int, pow2(n as nat) as int);
                lemma_mod_multiples_basic(x * pow2(k), pow2(n as nat) as int);
                lemma_small_mod(0, pow2(n as nat));
            }
            Self::reduce(0, n)
        } else {
            proof {
                lemma2_to64_rest();
                lemma_pow2_le(s as nat, 64);
                lemma_pow2_pos(s as nat);
            }
            let p: u128 = low_mask(s as usize) as u128 + 1;
            proof {
                assert(a * p <= 0xffff_ffff_ffff_ffffu128 * 0x1_0000_0000_0000_0000u128) by (nonlinear_arith)
                    requires
                        a <= 0xffff_ffff_ffff_ffffu128,
                        p <= 0x1_0000_0000_0000_0000u128,
                ;
            }
            Self::reduce(a as u128 * p, n)
        }
    }

    /// Shift right by the value of `rhs`, truncated to the shorter length.
    /// This is division by `2^rhs`: a shift by the width or more gives zero.
    pub fn bvshr(&self, rhs: Self) -> (r: Self)
        requires
            self.wf(),
            rhs.wf(),
        ensures
            ({
                let n = shorter(self.spec_len(), rhs.spec_len());
                r.is_value(n, (self.spec_val() / pow2(rhs.spec_val())) % pow2(n))
            }),
    {
        let n = min(self.length, rhs.length);
        let a = self.data.to_u64();
        let s = rhs.data.to_u64();
        if s >= 64 {
            proof {
                lemma2_to64_rest();
                lemma_pow2_le(64, s as nat);
                lemma_basic_div(a as int, pow2(s as nat) as int);
            }
            Self::reduce(0, n)
        } else {
            proof {
                lemma_u64_shr_is_div(a, s);
            }
            Self::reduce((a >> s) as u128, n)
        }
    }
}

} // verus!
