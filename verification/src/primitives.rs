//! Ethereum addresses and 256-bit unsigned integers as plain values.

use vstd::prelude::*;

verus! {

/// 2^64, the weight of the second limb of a [`U256`].
pub open spec fn limb_base1() -> nat {
    18446744073709551616nat
}

/// 2^128, the weight of the third limb of a [`U256`].
pub open spec fn limb_base2() -> nat {
    340282366920938463463374607431768211456nat
}

/// 2^192, the weight of the fourth limb of a [`U256`].
pub open spec fn limb_base3() -> nat {
    6277101735386680763835789423207666416102355444464034512896nat
}

/// 2^256 - 1, the largest value a [`U256`] holds.
pub open spec fn u256_max_value() -> nat {
    115792089237316195423570985008687907853269984665640564039457584007913129639935nat
}

/// The number that four little-endian 64-bit limbs stand for.
pub open spec fn limbs_value(l0: u64, l1: u64, l2: u64, l3: u64) -> nat {
    (l0 + l1 * limb_base1() + l2 * limb_base2() + l3 * limb_base3()) as nat
}

/// A 20-byte Ethereum account address.
#[derive(Clone, Copy, Debug, PartialEq, Eq, Hash)]
pub struct Address {
    pub bytes: [u8; 20],
}

impl View for Address {
    type V = Seq<u8>;

    open spec fn view(&self) -> Seq<u8> {
        self.bytes@
    }
}

/// An unsigned 256-bit integer, held as four 64-bit limbs, least significant first.
#[derive(Clone, Copy, Debug, PartialEq, Eq, Hash)]
pub struct U256 {
    pub limbs: [u64; 4],
}

impl View for U256 {
    type V = nat;

    open spec fn view(&self) -> nat {
        limbs_value(self.limbs@[0], self.limbs@[1], self.limbs@[2], self.limbs@[3])
    }
}

/// `a` comes strictly before `b` in lexicographic byte order (the order of `Address`).
pub open spec fn bytes_lt(a: Seq<u8>, b: Seq<u8>) -> bool {
    exists|i: int|
        0 <= i < a.len() && i < b.len() && a[i] < b[i] && (forall|j: int|
            0 <= j < i ==> #[trigger] a[j] == b[j])
}

/// The byte order of addresses is asymmetric: no two byte strings each come
/// before the other.
pub proof fn lemma_bytes_lt_asymmetric(a: Seq<u8>, b: Seq<u8>)
    ensures
        !(bytes_lt(a, b) && bytes_lt(b, a)),
{
    if bytes_lt(a, b) && bytes_lt(b, a) {
        let i = choose|i: int|
            0 <= i < a.len() && i < b.len() && a[i] < b[i] && (forall|j: int|
                0 <= j < i ==> #[trigger] a[j] == b[j]);
        let k = choose|k: int|
            0 <= k < b.len() && k < a.len() && b[k] < a[k] && (forall|j: int|
                0 <= j < k ==> #[trigger] b[j] == a[j]);
        if i < k {
            assert(b[i] == a[i]);
        } else if k < i {
            assert(a[k] == b[k]);
        }
    }
}

/// The limb weights are 2^64, 2^128 and 2^192, and the largest value is
/// 2^256 - 1.
pub proof fn lemma_limb_weights()
    ensures
        limb_base1() == vstd::arithmetic::power2::pow2(64),
        limb_base2() == vstd::arithmetic::power2::pow2(128),
        limb_base3() == vstd::arithmetic::power2::pow2(192),
        u256_max_value() == vstd::arithmetic::power2::pow2(256) - 1,
{
    vstd::arithmetic::power2::lemma2_to64();
    vstd::arithmetic::power2::lemma_pow2_adds(64, 64);
    vstd::arithmetic::power2::lemma_pow2_adds(128, 64);
    vstd::arithmetic::power2::lemma_pow2_adds(192, 64);
}

/// Every limb is below 2^64, so the value is below 2^256.
pub proof fn lemma_u256_bounded(x: U256)
    ensures
        x@ <= u256_max_value(),
{
    let l0 = x.limbs@[0];
    let l1 = x.limbs@[1];
    let l2 = x.limbs@[2];
    let l3 = x.limbs@[3];
    assert(l1 * limb_base1() <= 18446744073709551615nat * limb_base1()) by (nonlinear_arith)
        requires
            l1 <= 18446744073709551615,
    ;
    assert(l2 * limb_base2() <= 18446744073709551615nat * limb_base2()) by (nonlinear_arith)
        requires
            l2 <= 18446744073709551615,
    ;
    assert(l3 * limb_base3() <= 18446744073709551615nat * limb_base3()) by (nonlinear_arith)
        requires
            l3 <= 18446744073709551615,
    ;
}

/// The value of the three low limbs lies below the weight of the top limb,
/// and so on down: the facts that make limb-wise comparison correct.
proof fn lemma_low_limbs_below(l0: u64, l1: u64, l2: u64)
    ensures
        l0 < limb_base1(),
        l0 + l1 * limb_base1() < limb_base2(),
        l0 + l1 * limb_base1() + l2 * limb_base2() < limb_base3(),
{
    assert(l1 * limb_base1() <= 18446744073709551615nat * limb_base1()) by (nonlinear_arith)
        requires
            l1 <= 18446744073709551615,
    ;
    assert(l2 * limb_base2() <= 18446744073709551615nat * limb_base2()) by (nonlinear_arith)
        requires
            l2 <= 18446744073709551615,
    ;
}

/// If limb `k` of `a` is below limb `k` of `b`, the value of a limb and all
/// below it is smaller, whatever the lower limbs hold.
proof fn lemma_limb_step(hi_a: u64, hi_b: u64, lo_a: int, lo_b: int, base: int)
    requires
        hi_a < hi_b,
        0 <= lo_a < base,
        0 <= lo_b,
        base > 0,
    ensures
        lo_a + hi_a * base < lo_b + hi_b * base,
{
    assert(hi_a * base + base <= hi_b * base) by (nonlinear_arith)
        requires
            hi_a < hi_b,
            base > 0,
    ;
}

impl U256 {
    /// Zero.
    pub fn zero() -> (r: U256)
        ensures
            r@ == 0,
    {
        U256 { limbs: [0, 0, 0, 0] }
    }

    /// The value of a `u64`.
    pub fn from_u64(v: u64) -> (r: U256)
        ensures
            r@ == v,
            r.limbs@ == seq![v, 0u64, 0u64, 0u64],
    {
        let r = U256 { limbs: [v, 0, 0, 0] };
        assert(r.limbs@ =~= seq![v, 0u64, 0u64, 0u64]);
        r
    }

    /// The value of a `u128`.
    pub fn from_u128(v: u128) -> (r: U256)
        ensures
            r@ == v,
    {
        let lo: u64 = (v % 0x1_0000_0000_0000_0000) as u64;
        let hi: u64 = (v / 0x1_0000_0000_0000_0000) as u64;
        assert(v == lo + hi * limb_base1()) by (nonlinear_arith)
            requires
                lo == v % 0x1_0000_0000_0000_0000,
                hi == v / 0x1_0000_0000_0000_0000,
                limb_base1() == 0x1_0000_0000_0000_0000,
        ;
        U256 { limbs: [lo, hi, 0, 0] }
    }

    /// The largest 256-bit value, 2^256 - 1.
    pub fn max_value() -> (r: U256)
        ensures
            r@ == u256_max_value(),
    {
        let m: u64 = 0xffff_ffff_ffff_ffff;
        U256 { limbs: [m, m, m, m] }
    }

    /// `self` is strictly smaller than `other`.
    pub fn lt(&self, other: &U256) -> (r: bool)
        ensures
            r == (self@ < other@),
    {
        let a = self.limbs;
        let b = other.limbs;
        proof {
            lemma_low_limbs_below(a@[0], a@[1], a@[2]);
            lemma_low_limbs_below(b@[0], b@[1], b@[2]);
        }
        let ghost la2: int = a@[0] + a@[1] * limb_base1() + a@[2] * limb_base2();
        let ghost lb2: int = b@[0] + b@[1] * limb_base1() + b@[2] * limb_base2();
        let ghost la1: int = a@[0] + a@[1] * limb_base1();
        let ghost lb1: int = b@[0] + b@[1] * limb_base1();
        if a[3] != b[3] {
            proof {
                if a@[3] < b@[3] {
                    lemma_limb_step(a@[3], b@[3], la2, lb2, limb_base3() as int);
                } else {
                    lemma_limb_step(b@[3], a@[3], lb2, la2, limb_base3() as int);
                }
            }
            return a[3] < b[3];
        }
        if a[2] != b[2] {
            proof {
                if a@[2] < b@[2] {
                    lemma_limb_step(a@[2], b@[2], la1, lb1, limb_base2() as int);
                } else {
                    lemma_limb_step(b@[2], a@[2], lb1, la1, limb_base2() as int);
                }
            }
            return a[2] < b[2];
        }
        if a[1] != b[1] {
            proof {
                if a@[1] < b@[1] {
                    lemma_limb_step(a@[1], b@[1], a@[0] as int, b@[0] as int, limb_base1() as int);
                } else {
                    lemma_limb_step(b@[1], a@[1], b@[0] as int, a@[0] as int, limb_base1() as int);
                }
            }
            return a[1] < b[1];
        }
        a[0] < b[0]
    }

    /// `self` is strictly greater than `other`.
    pub fn gt(&self, other: &U256) -> (r: bool)
        ensures
            r == (self@ > other@),
    {
        other.lt(self)
    }
}

/// Divides with `alloy_primitives::U256` (ruint's `Uint<256, 4>`), whose `/`
/// is integer division rounded down and panics on a zero divisor; the contract
/// claims exactly that quotient of the two values.
#[verifier::external_body]
pub(crate) fn u256_div(a: U256, b: U256) -> (r: U256)
    requires
        b@ != 0,
    ensures
        r@ == a@ / b@,
{
    let q = alloy_primitives::U256::from_limbs(a.limbs) / alloy_primitives::U256::from_limbs(b.limbs);
    U256 { limbs: q.into_limbs() }
}

impl Address {
    /// The all-zero address.
    pub fn zero() -> (r: Address)
        ensures
            forall|i: int| 0 <= i < 20 ==> r@[i] == 0,
    {
        Address { bytes: [0u8; 20] }
    }

    /// Every byte of the address is zero.
    pub fn is_zero(&self) -> (r: bool)
        ensures
            r == (forall|i: int| 0 <= i < 20 ==> self@[i] == 0),
    {
        let mut i: usize = 0;
        while i < 20
            invariant
                0 <= i <= 20,
                forall|j: int| 0 <= j < i ==> self@[j] == 0,
            decreases 20 - i,
        {
            if self.bytes[i] != 0 {
                assert(self@[i as int] != 0);
                return false;
            }
            i = i + 1;
        }
        true
    }

    /// The two addresses hold the same bytes.
    pub fn same_as(&self, other: &Address) -> (r: bool)
        ensures
            r == (self@ == other@),
    {
        let mut i: usize = 0;
        while i < 20
            invariant
                0 <= i <= 20,
                forall|j: int| 0 <= j < i ==> self@[j] == other@[j],
            decreases 20 - i,
        {
            if self.bytes[i] != other.bytes[i] {
                return false;
            }
            i = i + 1;
        }
        assert(self@ =~= other@);
        true
    }

    /// `self` comes strictly before `other` in the byte order of addresses.
    pub fn lt(&self, other: &Address) -> (r: bool)
        ensures
            r == bytes_lt(self@, other@),
    {
        let mut i: usize = 0;
        while i < 20
            invariant
                0 <= i <= 20,
                forall|j: int| 0 <= j < i ==> self@[j] == other@[j],
            decreases 20 - i,
        {
            if self.bytes[i] != other.bytes[i] {
                let r = self.bytes[i] < other.bytes[i];
                proof {
                    if !r {
                        assert forall|k: int|
                            0 <= k < 20 && self@[k] < other@[k] implies !(forall|j: int|
                            0 <= j < k ==> #[trigger] self@[j] == other@[j]) by {
                            if k > i {
                                assert(self@[i as int] != other@[i as int]);
                            }
                        }
                    }
                }
                return r;
            }
            i = i + 1;
        }
        false
    }
}

} // verus!
