//! The backing integer types, and the capability the bit-vector algorithms
//! need from them: their width, and a lossless passage through `u64`.
use vstd::arithmetic::power2::{lemma2_to64, lemma2_to64_rest, pow2};
use vstd::prelude::*;

verus! {

/// An unsigned integer type that can back a bit vector.
pub trait Word: Copy + Sized {
    /// The number of bits of the type.
    spec fn width() -> nat;

    /// The value as a natural number.
    spec fn as_nat(self) -> nat;

    /// The width lies between 8 and 64.
    proof fn lemma_width()
        ensures
            8 <= Self::width() <= 64,
    ;

    /// Every value fits in the width, and the value determines the integer.
    proof fn lemma_word(x: Self, y: Self)
        ensures
            x.as_nat() < pow2(Self::width()),
            x.as_nat() == y.as_nat() ==> x == y,
    ;

    /// The number of bits of the type.
    fn bit_width() -> (r: usize)
        ensures
            r == Self::width(),
    ;

    /// The value widened to `u64`.
    fn to_u64(self) -> (r: u64)
        ensures
            r == self.as_nat(),
    ;

    /// A `u64` that fits the type, narrowed to it.
    fn from_u64(v: u64) -> (r: Self)
        requires
            v < pow2(Self::width()),
        ensures
            r.as_nat() == v,
    ;
}

impl Word for u8 {
    open spec fn width() -> nat {
        8
    }

    open spec fn as_nat(self) -> nat {
        self as nat
    }

    proof fn lemma_width() {
    }

    proof fn lemma_word(x: Self, y: Self) {
        lemma2_to64();
    }

    fn bit_width() -> (r: usize) {
        8
    }

    fn to_u64(self) -> (r: u64) {
        self as u64
    }

    fn from_u64(v: u64) -> (r: Self) {
        proof {
            lemma2_to64();
        }
        v as u8
    }
}

impl Word for u16 {
    open spec fn width() -> nat {
        16
    }

    open spec fn as_nat(self) -> nat {
        self as nat
    }

    proof fn lemma_width() {
    }

    proof fn lemma_word(x: Self, y: Self) {
        lemma2_to64();
    }

    fn bit_width() -> (r: usize) {
        16
    }

    fn to_u64(self) -> (r: u64) {
        self as u64
    }

    fn from_u64(v: u64) -> (r: Self) {
        proof {
            lemma2_to64();
        }
        v as u16
    }
}

impl Word for u32 {
    open spec fn width() -> nat {
        32
    }

    open spec fn as_nat(self) -> nat {
        self as nat
    }

    proof fn lemma_width() {
    }

    proof fn lemma_word(x: Self, y: Self) {
        lemma2_to64();
    }

    fn bit_width() -> (r: usize) {
        32
    }

    fn to_u64(self) -> (r: u64) {
        self as u64
    }

    fn from_u64(v: u64) -> (r: Self) {
        proof {
            lemma2_to64();
        }
        v as u32
    }
}

impl Word for u64 {
    open spec fn width() -> nat {
        64
    }

    open spec fn as_nat(self) -> nat {
        self as nat
    }

    proof fn lemma_width() {
    }

    proof fn lemma_word(x: Self, y: Self) {
        lemma2_to64();
        lemma2_to64_rest();
    }

    fn bit_width() -> (r: usize) {
        64
    }

    fn to_u64(self) -> (r: u64) {
        self
    }

    fn from_u64(v: u64) -> (r: Self) {
        v
    }
}

} // verus!
