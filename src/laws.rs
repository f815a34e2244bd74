//! Laws that relate the operations of a bit vector to one another.
use vstd::arithmetic::div_mod::{
    lemma_div_denominator, lemma_fundamental_div_mod, lemma_hoist_over_denominator,
};
use vstd::arithmetic::power2::{lemma2_to64, lemma_pow2_pos, lemma_pow2_unfold, pow2};
use vstd::prelude::*;

use crate::bits::{bit, reverses};
use crate::bitvec::{with_bit_cleared, with_bit_set, NanoBV};
use crate::word::Word;

verus! {

/// Adding or taking away `2^i` flips bit `i`.
proof fn lemma_flip_bit(v: nat, i: nat)
    ensures
        !bit(v, i) ==> bit(v + pow2(i), i),
        bit(v, i) ==> v >= pow2(i) && !bit((v - pow2(i)) as nat, i),
{
    lemma_pow2_pos(i);
    lemma_hoist_over_denominator(v as int, 1, pow2(i));
    if bit(v, i) {
        lemma_hoist_over_denominator(v - pow2(i), 1, pow2(i));
        assert(v as int / pow2(i) as int >= 1);
        lemma_fundamental_div_mod(v as int, pow2(i) as int);
        assert(v >= pow2(i)) by (nonlinear_arith)
            requires
                v as int == pow2(i) * (v as int / pow2(i) as int) + v as int % pow2(i) as int,
                v as int / pow2(i) as int >= 1,
                v as int % pow2(i) as int >= 0,
                pow2(i) > 0,
        ;
    }
}

/// Two numbers below `2^n` whose `n` low bits agree are equal.
pub proof fn lemma_bits_determine(a: nat, b: nat, n: nat)
    requires
        a < pow2(n),
        b < pow2(n),
        forall|i: nat| i < n ==> #[trigger] bit(a, i) == bit(b, i),
    ensures
        a == b,
    decreases n,
{
    if n == 0 {
        lemma2_to64();
    } else {
        lemma_pow2_unfold(n);
        lemma2_to64();
        assert(bit(a, 0) == bit(b, 0));
        assert forall|i: nat| i < (n - 1) as nat implies #[trigger] bit(a / 2, i) == bit(b / 2, i) by {
            lemma_pow2_pos(i);
            lemma_pow2_unfold(i + 1);
            lemma_div_denominator(a as int, 2, pow2(i) as int);
            lemma_div_denominator(b as int, 2, pow2(i) as int);
            assert(bit(a, i + 1) == bit(b, i + 1));
        }
        lemma_bits_determine(a / 2, b / 2, (n - 1) as nat);
        lemma_fundamental_div_mod(a as int, 2);
        lemma_fundamental_div_mod(b as int, 2);
    }
}

/// At full width, `ones` holds the maximum of the backing type: no value of
/// the type exceeds `2^width - 1`.
pub proof fn law_full_width_ones_is_max<T: Word>(x: T)
    ensures
        x.as_nat() <= pow2(T::width()) - 1,
{
    T::lemma_word(x, x);
}

/// Setting a bit twice gives what setting it once gives.
pub proof fn law_set_bit_idempotent(v: nat, i: nat)
    ensures
        with_bit_set(with_bit_set(v, i), i) == with_bit_set(v, i),
{
    lemma_flip_bit(v, i);
}

/// Clearing a bit twice gives what clearing it once gives.
pub proof fn law_clear_bit_idempotent(v: nat, i: nat)
    ensures
        with_bit_cleared(with_bit_cleared(v, i), i) == with_bit_cleared(v, i),
{
    lemma_flip_bit(v, i);
}

/// A bit reads 1 after it is set and 0 after it is cleared, whatever the
/// value was before; so in particular on `zeros` and on `ones`.
pub proof fn law_bit_round_trip(v: nat, i: nat)
    ensures
        (with_bit_set(v, i) / pow2(i)) % 2 == 1,
        (with_bit_cleared(v, i) / pow2(i)) % 2 == 0,
{
    lemma_flip_bit(v, i);
}

/// Reversing the significant bits twice gives the vector back.
pub proof fn law_reverse_involution<T: Word>(v: NanoBV<T>, once: NanoBV<T>, twice: NanoBV<T>)
    requires
        v.wf(),
        once.wf(),
        twice.wf(),
        once.spec_len() == v.spec_len(),
        twice.spec_len() == v.spec_len(),
        reverses(once.spec_val(), v.spec_val(), v.spec_len()),
        reverses(twice.spec_val(), once.spec_val(), v.spec_len()),
    ensures
        twice == v,
{
    let n = v.spec_len();
    assert forall|i: nat| i < n implies #[trigger] bit(twice.spec_val(), i) == bit(
        v.spec_val(),
        i,
    ) by {
        assert(bit(twice.spec_val(), i) == bit(once.spec_val(), (n - 1 - i) as nat));
        assert(bit(once.spec_val(), (n - 1 - i) as nat) == bit(
            v.spec_val(),
            (n - 1 - (n - 1 - i)) as nat,
        ));
    }
    lemma_bits_determine(twice.spec_val(), v.spec_val(), n);
    NanoBV::<T>::lemma_ext(twice, v);
}

} // verus!
