//! The operator traits of `core::ops`, each the same operation as the
//! corresponding `bv*` method: `a & b` is `a.bvand(b)`. Division and remainder
//! yield a `Result`, since a zero divisor is a fault.
//!
//! What each operator returns is stated on its impl; the `*_spec` functions
//! of vstd's operator extensions are not relied on (`obeys_*_spec` is false).
use vstd::arithmetic::power2::pow2;
use vstd::prelude::*;

use crate::bitvec::{shorter, NanoBV};
use crate::error::BvError;
use crate::word::Word;

verus! {

impl<T: Word> vstd::std_specs::ops::AddSpecImpl for NanoBV<T> {
    open spec fn obeys_add_spec() -> bool {
        false
    }

    open spec fn add_req(self, rhs: Self) -> bool {
        self.wf() && rhs.wf()
    }

    open spec fn add_spec(self, rhs: Self) -> Self::Output {
        arbitrary()
    }
}

impl<T: Word> core::ops::Add for NanoBV<T> {
    type Output = Self;

    fn add(self, rhs: Self) -> (r: Self)
        ensures
            ({
                let n = shorter(self.spec_len(), rhs.spec_len());
                r.is_value(n, (self.spec_val() + rhs.spec_val()) as nat % pow2(n))
            }),
    {
        self.bvadd(rhs)
    }
}

impl<T: Word> vstd::std_specs::ops::SubSpecImpl for NanoBV<T> {
    open spec fn obeys_sub_spec() -> bool {
        false
    }

    open spec fn sub_req(self, rhs: Self) -> bool {
        self.wf() && rhs.wf()
    }

    open spec fn sub_spec(self, rhs: Self) -> Self::Output {
        arbitrary()
    }
}

impl<T: Word> core::ops::Sub for NanoBV<T> {
    type Output = Self;

    fn sub(self, rhs: Self) -> (r: Self)
        ensures
            ({
                let n = shorter(self.spec_len(), rhs.spec_len());
                r.is_value(n, ((self.spec_val() - rhs.spec_val()) % (pow2(n) as int)) as nat)
            }),
    {
        self.bvsub(rhs)
    }
}

impl<T: Word> vstd::std_specs::ops::MulSpecImpl for NanoBV<T> {
    open spec fn obeys_mul_spec() -> bool {
        false
    }

    open spec fn mul_req(self, rhs: Self) -> bool {
        self.wf() && rhs.wf()
    }

    open spec fn mul_spec(self, rhs: Self) -> Self::Output {
        arbitrary()
    }
}

impl<T: Word> core::ops::Mul for NanoBV<T> {
    type Output = Self;

    fn mul(self, rhs: Self) -> (r: Self)
        ensures
            ({
                let n = shorter(self.spec_len(), rhs.spec_len());
                r.is_value(n, (self.spec_val() * rhs.spec_val()) % pow2(n))
            }),
    {
        self.bvmul(rhs)
    }
}

impl<T: Word> vstd::std_specs::ops::DivSpecImpl for NanoBV<T> {
    open spec fn obeys_div_spec() -> bool {
        false
    }

    open spec fn div_req(self, rhs: Self) -> bool {
        self.wf() && rhs.wf()
    }

    open spec fn div_spec(self, rhs: Self) -> Self::Output {
        arbitrary()
    }
}

impl<T: Word> core::ops::Div for NanoBV<T> {
    type Output = Result<Self, BvError>;

    fn div(self, rhs: Self) -> (r: Result<Self, BvError>)
        ensures
            match r {
                Ok(v) => rhs.spec_val() != 0 && ({
                    let n = shorter(self.spec_len(), rhs.spec_len());
                    v.is_value(n, (self.spec_val() / rhs.spec_val()) % pow2(n))
                }),
                Err(e) => rhs.spec_val() == 0 && e == BvError::DivisionFault,
            },
    {
        self.bvdiv(rhs)
    }
}

impl<T: Word> vstd::std_specs::ops::RemSpecImpl for NanoBV<T> {
    open spec fn obeys_rem_spec() -> bool {
        false
    }

    open spec fn rem_req(self, rhs: Self) -> bool {
        self.wf() && rhs.wf()
    }

    open spec fn rem_spec(self, rhs: Self) -> Self::Output {
        arbitrary()
    }
}

impl<T: Word> core::ops::Rem for NanoBV<T> {
    type Output = Result<Self, BvError>;

    fn rem(self, rhs: Self) -> (r: Result<Self, BvError>)
        ensures
            match r {
                Ok(v) => rhs.spec_val() != 0 && ({
                    let n = shorter(self.spec_len(), rhs.spec_len());
                    v.is_value(n, (self.spec_val() % rhs.spec_val()) % pow2(n))
                }),
                Err(e) => rhs.spec_val() == 0 && e == BvError::DivisionFault,
            },
    {
        self.bvrem(rhs)
    }
}

impl<T: Word> vstd::std_specs::ops::BitAndSpecImpl for NanoBV<T> {
    open spec fn obeys_bitand_spec() -> bool {
        false
    }

    open spec fn bitand_req(self, rhs: Self) -> bool {
        self.wf() && rhs.wf()
    }

    open spec fn bitand_spec(self, rhs: Self) -> Self::Output {
        arbitrary()
    }
}

impl<T: Word> core::ops::BitAnd for NanoBV<T> {
    type Output = Self;

    fn bitand(self, rhs: Self) -> (r: Self)
        ensures
            ({
                let n = shorter(self.spec_len(), rhs.spec_len());
                r.is_value(n, (self.spec_val() as u64 & rhs.spec_val() as u64) as nat % pow2(n))
            }),
    {
        self.bvand(rhs)
    }
}

impl<T: Word> vstd::std_specs::ops::BitOrSpecImpl for NanoBV<T> {
    open spec fn obeys_bitor_spec() -> bool {
        false
    }

    open spec fn bitor_req(self, rhs: Self) -> bool {
        self.wf() && rhs.wf()
    }

    open spec fn bitor_spec(self, rhs: Self) -> Self::Output {
        arbitrary()
    }
}

impl<T: Word> core::ops::BitOr for NanoBV<T> {
    type Output = Self;

    fn bitor(self, rhs: Self) -> (r: Self)
        ensures
            ({
                let n = shorter(self.spec_len(), rhs.spec_len());
                r.is_value(n, (self.spec_val() as u64 | rhs.spec_val() as u64) as nat % pow2(n))
            }),
    {
        self.bvor(rhs)
    }
}

impl<T: Word> vstd::std_specs::ops::BitXorSpecImpl for NanoBV<T> {
    open spec fn obeys_bitxor_spec() -> bool {
        false
    }

    open spec fn bitxor_req(self, rhs: Self) -> bool {
        self.wf() && rhs.wf()
    }

    open spec fn bitxor_spec(self, rhs: Self) -> Self::Output {
        arbitrary()
    }
}

impl<T: Word> core::ops::BitXor for NanoBV<T> {
    type Output = Self;

    fn bitxor(self, rhs: Self) -> (r: Self)
        ensures
            ({
                let n = shorter(self.spec_len(), rhs.spec_len());
                r.is_value(n, (self.spec_val() as u64 ^ rhs.spec_val() as u64) as nat % pow2(n))
            }),
    {
        self.bvxor(rhs)
    }
}

impl<T: Word> vstd::std_specs::ops::ShlSpecImpl for NanoBV<T> {
    open spec fn obeys_shl_spec() -> bool {
        false
    }

    open spec fn shl_req(self, rhs: Self) -> bool {
        self.wf() && rhs.wf()
    }

    open spec fn shl_spec(self, rhs: Self) -> Self::Output {
        arbitrary()
    }
}

impl<T: Word> core::ops::Shl for NanoBV<T> {
    type Output = Self;

    fn shl(self, rhs: Self) -> (r: Self)
        ensures
            ({
                let n = shorter(self.spec_len(), rhs.spec_len());
                r.is_value(n, (self.spec_val() * pow2(rhs.spec_val())) % pow2(n))
            }),
    {
        self.bvshl(rhs)
    }
}

impl<T: Word> vstd::std_specs::ops::ShrSpecImpl for NanoBV<T> {
    open spec fn obeys_shr_spec() -> bool {
        false
    }

    open spec fn shr_req(self, rhs: Self) -> bool {
        self.wf() && rhs.wf()
    }

    open spec fn shr_spec(self, rhs: Self) -> Self::Output {
        arbitrary()
    }
}

impl<T: Word> core::ops::Shr for NanoBV<T> {
    type Output = Self;

    fn shr(self, rhs: Self) -> (r: Self)
        ensures
            ({
                let n = shorter(self.spec_len(), rhs.spec_len());
                r.is_value(n, (self.spec_val() / pow2(rhs.spec_val())) % pow2(n))
            }),
    {
        self.bvshr(rhs)
    }
}

} // verus!
