use vstd::prelude::*;

verus! {

/// 2^64, the radix of the limb representation.
pub open spec fn limb_base() -> int {
    0x1_0000_0000_0000_0000
}

/// The prime modulus q of the BLS12-377 scalar field.
pub open spec fn modulus() -> int {
    725501752471715841 + 6461107452199829505 * limb_base() + 6968279316240510977 * limb_base()
        * limb_base() + 1345280370688173398 * limb_base() * limb_base() * limb_base()
}

/// Field addition on canonical representatives.
pub open spec fn fadd(a: int, b: int) -> int {
    (a + b) % modulus()
}

/// Field subtraction on canonical representatives.
pub open spec fn fsub(a: int, b: int) -> int {
    (a - b) % modulus()
}

/// Field multiplication on canonical representatives.
pub open spec fn fmul(a: int, b: int) -> int {
    (a * b) % modulus()
}

/// Field negation on canonical representatives.
pub open spec fn fneg(a: int) -> int {
    (-a) % modulus()
}

/// The unsigned integer whose little-endian bytes are `b`.
pub open spec fn le_value(b: Seq<u8>) -> int
    decreases b.len(),
{
    if b.len() == 0 {
        0
    } else {
        b[0] + 256 * le_value(b.drop_first())
    }
}

/// An element of the BLS12-377 scalar field, stored as its canonical
/// little-endian 64-bit limbs.
#[derive(Clone, Copy, Debug, PartialEq, Eq)]
pub struct Fq {
    l0: u64,
    l1: u64,
    l2: u64,
    l3: u64,
}

impl Fq {
    /// The integer this element stands for.
    pub closed spec fn val(self) -> int {
        self.l0 as int + self.l1 as int * limb_base() + self.l2 as int * limb_base() * limb_base()
            + self.l3 as int * limb_base() * limb_base() * limb_base()
    }

    /// The element is a canonical representative: its value lies below the modulus.
    pub open spec fn wf(self) -> bool {
        0 <= self.val() < modulus()
    }

    pub fn from_u64(n: u64) -> (r: Fq)
        ensures
            r.val() == n as int,
            r.wf(),
    {
        Fq { l0: n, l1: 0, l2: 0, l3: 0 }
    }

    pub fn zero() -> (r: Fq)
        ensures
            r.val() == 0,
            r.wf(),
    {
        Fq::from_u64(0)
    }

    pub fn one() -> (r: Fq)
        ensures
            r.val() == 1,
            r.wf(),
    {
        Fq::from_u64(1)
    }

    pub fn is_zero(&self) -> (r: bool)
        ensures
            r == (self.val() == 0),
    {
        proof {
            let b = limb_base();
            assert(self.val() == 0 ==> self.l0 == 0 && self.l1 == 0 && self.l2 == 0 && self.l3
                == 0) by (nonlinear_arith)
                requires
                    b == limb_base(),
                    b > 0,
                    self.val() == self.l0 as int + self.l1 as int * b + self.l2 as int * b * b
                        + self.l3 as int * b * b * b,
            ;
        }
        self.l0 == 0 && self.l1 == 0 && self.l2 == 0 && self.l3 == 0
    }

    /// Relies on decaf377's `Fq::add`, the sum modulo q, read back as canonical limbs.
    #[verifier::external_body]
    fn add_mod(self, other: Fq) -> (r: Fq)
        ensures
            r.val() == fadd(self.val(), other.val()),
    {
        let x = decaf377::Fq::from(ark_ff::BigInt::new([self.l0, self.l1, self.l2, self.l3]));
        let y = decaf377::Fq::from(ark_ff::BigInt::new([other.l0, other.l1, other.l2, other.l3]));
        let l = ark_ff::PrimeField::into_bigint(x.add(&y)).0;
        Fq { l0: l[0], l1: l[1], l2: l[2], l3: l[3] }
    }

    /// Relies on decaf377's `Fq::sub`, the difference modulo q, read back as canonical limbs.
    #[verifier::external_body]
    fn sub_mod(self, other: Fq) -> (r: Fq)
        ensures
            r.val() == fsub(self.val(), other.val()),
    {
        let x = decaf377::Fq::from(ark_ff::BigInt::new([self.l0, self.l1, self.l2, self.l3]));
        let y = decaf377::Fq::from(ark_ff::BigInt::new([other.l0, other.l1, other.l2, other.l3]));
        let l = ark_ff::PrimeField::into_bigint(x.sub(&y)).0;
        Fq { l0: l[0], l1: l[1], l2: l[2], l3: l[3] }
    }

    /// Relies on decaf377's `Fq::mul`, the product modulo q, read back as canonical limbs.
    #[verifier::external_body]
    fn mul_mod(self, other: Fq) -> (r: Fq)
        ensures
            r.val() == fmul(self.val(), other.val()),
    {
        let x = decaf377::Fq::from(ark_ff::BigInt::new([self.l0, self.l1, self.l2, self.l3]));
        let y = decaf377::Fq::from(ark_ff::BigInt::new([other.l0, other.l1, other.l2, other.l3]));
        let l = ark_ff::PrimeField::into_bigint(x.mul(&y)).0;
        Fq { l0: l[0], l1: l[1], l2: l[2], l3: l[3] }
    }

    /// Relies on decaf377's `Fq::neg`, the additive inverse modulo q, read back as canonical limbs.
    #[verifier::external_body]
    fn neg_mod(self) -> (r: Fq)
        ensures
            r.val() == fneg(self.val()),
    {
        let x = decaf377::Fq::from(ark_ff::BigInt::new([self.l0, self.l1, self.l2, self.l3]));
        let l = ark_ff::PrimeField::into_bigint(x.neg()).0;
        Fq { l0: l[0], l1: l[1], l2: l[2], l3: l[3] }
    }

    /// Relies on decaf377's `Fq::inverse`: `None` exactly for zero, otherwise the
    /// multiplicative inverse modulo q, read back as canonical limbs.
    #[verifier::external_body]
    fn inverse_mod(self) -> (r: Option<Fq>)
        ensures
            r.is_none() == (self.val() % modulus() == 0),
            r matches Some(v) ==> v.wf() && fmul(self.val(), v.val()) == 1,
    {
        let x = decaf377::Fq::from(ark_ff::BigInt::new([self.l0, self.l1, self.l2, self.l3]));
        match x.inverse() {
            Some(v) => {
                let l = ark_ff::PrimeField::into_bigint(v).0;
                Some(Fq { l0: l[0], l1: l[1], l2: l[2], l3: l[3] })
            },
            None => None,
        }
    }

    /// Relies on decaf377's `Fq::from_le_bytes_mod_order`: the little-endian integer
    /// reduced modulo q, read back as canonical limbs.
    #[verifier::external_body]
    pub(crate) fn from_le_bytes_mod_order(bytes: &[u8]) -> (r: Fq)
        ensures
            r.val() == le_value(bytes@) % modulus(),
    {
        let l = ark_ff::PrimeField::into_bigint(decaf377::Fq::from_le_bytes_mod_order(bytes)).0;
        Fq { l0: l[0], l1: l[1], l2: l[2], l3: l[3] }
    }

    /// The sum of two elements.
    pub fn add(self, other: Fq) -> (r: Fq)
        ensures
            r.val() == fadd(self.val(), other.val()),
            r.wf(),
    {
        self.add_mod(other)
    }

    /// The difference of two elements.
    pub fn sub(self, other: Fq) -> (r: Fq)
        ensures
            r.val() == fsub(self.val(), other.val()),
            r.wf(),
    {
        self.sub_mod(other)
    }

    /// The product of two elements.
    pub fn mul(self, other: Fq) -> (r: Fq)
        ensures
            r.val() == fmul(self.val(), other.val()),
            r.wf(),
    {
        self.mul_mod(other)
    }

    /// The additive inverse.
    pub fn neg(self) -> (r: Fq)
        ensures
            r.val() == fneg(self.val()),
            r.wf(),
    {
        self.neg_mod()
    }

    /// The multiplicative inverse, `None` for zero.
    pub fn inverse(self) -> (r: Option<Fq>)
        requires
            self.wf(),
        ensures
            r.is_none() == (self.val() == 0),
            r matches Some(v) ==> v.wf() && fmul(self.val(), v.val()) == 1,
    {
        proof {
            vstd::arithmetic::div_mod::lemma_small_mod(self.val() as nat, modulus() as nat);
        }
        self.inverse_mod()
    }

    /// The quotient `self / other`, for a nonzero divisor.
    pub fn div(self, other: Fq) -> (r: Fq)
        requires
            other.wf(),
            other.val() != 0,
        ensures
            exists|v: int| fmul(other.val(), v) == 1 && r.val() == fmul(self.val(), v),
            r.wf(),
    {
        let inv = other.inverse().unwrap();
        self.mul(inv)
    }
}

} // verus!
