//! The contract ABI: 32-byte words, function selectors, call data and return data.

use vstd::prelude::*;

use vstd::string::StringSliceAdditionalSpecFns;

use crate::primitives::{bytes_lt, Address, U256};

verus! {

/// The Keccak-256 digest of `data`, as `alloy_primitives::keccak256` computes it.
pub uninterp spec fn keccak256_digest(data: Seq<u8>) -> Seq<u8>;

/// Hashes with `alloy_primitives::keccak256`; the contract names the 32-byte
/// digest it returns as `keccak256_digest` of the input bytes and claims
/// nothing more about it.
#[verifier::external_body]
pub(crate) fn keccak256(data: &[u8]) -> (r: [u8; 32])
    ensures
        r@ == keccak256_digest(data@),
{
    alloy_primitives::keccak256(data).0
}

/// `n` zero bytes.
pub open spec fn zeros(n: nat) -> Seq<u8> {
    Seq::new(n, |i: int| 0u8)
}

/// The ABI word of an address: twelve zero bytes, then the address.
pub open spec fn address_word(a: Seq<u8>) -> Seq<u8> {
    zeros(12) + a
}

/// Byte `i` (0 = most significant) of the big-endian form of `x`.
pub open spec fn be_byte(x: u64, i: int) -> u8 {
    ((x >> ((56 - 8 * i) as u64)) & 0xffu64) as u8
}

/// The eight big-endian bytes of `x`.
pub open spec fn u64_be(x: u64) -> Seq<u8> {
    Seq::new(8, |i: int| be_byte(x, i))
}

/// The ABI word of a 256-bit integer: its 32 big-endian bytes.
pub open spec fn u256_word(x: U256) -> Seq<u8> {
    u64_be(x.limbs@[3]) + u64_be(x.limbs@[2]) + u64_be(x.limbs@[1]) + u64_be(x.limbs@[0])
}

/// The 4-byte selector of a function: the first bytes of the Keccak-256 of its signature.
pub open spec fn selector_of(signature: Seq<u8>) -> Seq<u8> {
    keccak256_digest(signature).take(4)
}

/// Return data that decodes, under strict ABI decoding, as a single `address`:
/// exactly one word whose first twelve bytes are zero.
pub open spec fn is_address_return(data: Seq<u8>) -> bool {
    &&& data.len() == 32
    &&& forall|i: int| 0 <= i < 12 ==> data[i] == 0
}

/// The ABI word of an address is 32 bytes: twelve zero bytes, then the
/// address's twenty bytes.
pub proof fn lemma_address_word_layout(a: Seq<u8>)
    requires
        a.len() == 20,
    ensures
        address_word(a).len() == 32,
        forall|i: int| 0 <= i < 12 ==> #[trigger] address_word(a)[i] == 0,
        forall|i: int| 0 <= i < 20 ==> #[trigger] address_word(a)[12 + i] == a[i],
{
}

/// Appends the ABI word of an address.
pub fn push_address_word(out: &mut Vec<u8>, a: &Address)
    ensures
        final(out)@ == old(out)@ + address_word(a@),
{
    let ghost start = out@;
    let mut k: usize = 0;
    while k < 12
        invariant
            0 <= k <= 12,
            out@ =~= start + zeros(k as nat),
        decreases 12 - k,
    {
        out.push(0u8);
        k = k + 1;
    }
    let mut j: usize = 0;
    while j < 20
        invariant
            0 <= j <= 20,
            out@ =~= start + zeros(12) + a@.take(j as int),
        decreases 20 - j,
    {
        out.push(a.bytes[j]);
        j = j + 1;
    }
    assert(a@.take(20) =~= a@);
}

/// Appends the eight big-endian bytes of `x`.
fn push_u64_be(out: &mut Vec<u8>, x: u64)
    ensures
        final(out)@ == old(out)@ + u64_be(x),
{
    let ghost start = out@;
    let mut k: u64 = 0;
    while k < 8
        invariant
            0 <= k <= 8,
            out@ =~= start + u64_be(x).take(k as int),
        decreases 8 - k,
    {
        let shift: u64 = 56 - 8 * k;
        out.push(((x >> shift) & 0xff) as u8);
        k = k + 1;
    }
    assert(u64_be(x).take(8) =~= u64_be(x));
}

/// Appends the ABI word of a 256-bit integer.
pub fn push_u256_word(out: &mut Vec<u8>, x: &U256)
    ensures
        final(out)@ == old(out)@ + u256_word(*x),
{
    let ghost start = out@;
    push_u64_be(out, x.limbs[3]);
    push_u64_be(out, x.limbs[2]);
    push_u64_be(out, x.limbs[1]);
    push_u64_be(out, x.limbs[0]);
    assert(out@ =~= start + u256_word(*x));
}

/// The 4-byte selector of the function with the given signature.
pub fn function_selector(signature: &str) -> (r: Vec<u8>)
    ensures
        r@ == selector_of(signature.spec_bytes()),
        r@.len() == 4,
{
    let digest = keccak256(signature.as_bytes());
    let mut r: Vec<u8> = Vec::new();
    let mut k: usize = 0;
    while k < 4
        invariant
            0 <= k <= 4,
            digest@.len() == 32,
            r@ =~= digest@.take(k as int),
        decreases 4 - k,
    {
        r.push(digest[k]);
        k = k + 1;
    }
    r
}

/// Reads eight bytes as a big-endian `u64`.
fn read_u64_be(data: &[u8], off: usize) -> (r: u64)
    requires
        off + 8 <= data@.len(),
    ensures
        u64_be(r) == data@.subrange(off as int, off + 8),
{
    let b0 = data[off];
    let b1 = data[off + 1];
    let b2 = data[off + 2];
    let b3 = data[off + 3];
    let b4 = data[off + 4];
    let b5 = data[off + 5];
    let b6 = data[off + 6];
    let b7 = data[off + 7];
    let r: u64 = ((b0 as u64) << 56) | ((b1 as u64) << 48) | ((b2 as u64) << 40) | ((b3 as u64)
        << 32) | ((b4 as u64) << 24) | ((b5 as u64) << 16) | ((b6 as u64) << 8) | (b7 as u64);
    assert(((r >> 56u64) & 0xffu64) as u8 == b0 && ((r >> 48u64) & 0xffu64) as u8 == b1 && ((r
        >> 40u64) & 0xffu64) as u8 == b2 && ((r >> 32u64) & 0xffu64) as u8 == b3 && ((r >> 24u64)
        & 0xffu64) as u8 == b4 && ((r >> 16u64) & 0xffu64) as u8 == b5 && ((r >> 8u64) & 0xffu64)
        as u8 == b6 && ((r >> 0u64) & 0xffu64) as u8 == b7) by (bit_vector)
        requires
            r == ((b0 as u64) << 56) | ((b1 as u64) << 48) | ((b2 as u64) << 40) | ((b3 as u64)
                << 32) | ((b4 as u64) << 24) | ((b5 as u64) << 16) | ((b6 as u64) << 8) | (
            b7 as u64),
    ;
    assert(u64_be(r) =~= data@.subrange(off as int, off + 8));
    r
}

/// Reads the 32-byte word at `off` as a 256-bit integer.
fn read_u256_word(data: &[u8], off: usize) -> (r: U256)
    requires
        off + 32 <= data@.len(),
    ensures
        u256_word(r) == data@.subrange(off as int, off + 32),
{
    let n = data.len();
    let l3 = read_u64_be(data, off);
    let l2 = read_u64_be(data, off + 8);
    let l1 = read_u64_be(data, off + 16);
    let l0 = read_u64_be(data, off + 24);
    let r = U256 { limbs: [l0, l1, l2, l3] };
    assert(u256_word(r) =~= data@.subrange(off as int, off + 32));
    r
}

/// The 256-bit integer whose ABI word is `w`.
pub(crate) fn u256_from_word(w: &[u8; 32]) -> (r: U256)
    ensures
        u256_word(r) == w@,
{
    let s: &[u8] = w;
    assert(s@ == w@);
    let r = read_u256_word(s, 0);
    assert(s@.subrange(0, 32) =~= w@);
    r
}

/// Strict ABI decoding of return data holding one `address`.
pub fn decode_address_return(data: &[u8]) -> (r: Option<Address>)
    ensures
        r is Some <==> is_address_return(data@),
        r matches Some(a) ==> address_word(a@) == data@,
{
    if data.len() != 32 {
        return None;
    }
    let mut k: usize = 0;
    while k < 12
        invariant
            data@.len() == 32,
            0 <= k <= 12,
            forall|i: int| 0 <= i < k ==> data@[i] == 0,
        decreases 12 - k,
    {
        if data[k] != 0 {
            assert(!is_address_return(data@)) by {
                assert(data@[k as int] != 0);
            }
            return None;
        }
        k = k + 1;
    }
    let mut bytes = [0u8; 20];
    let mut j: usize = 0;
    while j < 20
        invariant
            data@.len() == 32,
            0 <= j <= 20,
            forall|i: int| 0 <= i < j ==> bytes@[i] == data@[12 + i],
        decreases 20 - j,
    {
        bytes[j] = data[12 + j];
        j = j + 1;
    }
    let a = Address { bytes };
    assert(address_word(a@) =~= data@);
    Some(a)
}

/// Strict ABI decoding of return data holding two `uint256` values: exactly
/// two words.
pub fn decode_u256_pair_return(data: &[u8]) -> (r: Option<(U256, U256)>)
    ensures
        r is Some <==> data@.len() == 64,
        r matches Some(p) ==> u256_word(p.0) + u256_word(p.1) == data@,
{
    if data.len() != 64 {
        return None;
    }
    let x = read_u256_word(data, 0);
    let y = read_u256_word(data, 32);
    assert(u256_word(x) + u256_word(y) =~= data@);
    Some((x, y))
}

/// Lenient ABI decoding of two `uint256` values: the first two words of data
/// that holds at least two; what follows them is ignored.
pub fn decode_u256_pair_prefix(data: &[u8]) -> (r: Option<(U256, U256)>)
    ensures
        r is Some <==> data@.len() >= 64,
        r matches Some(p) ==> u256_word(p.0) + u256_word(p.1) == data@.take(64),
{
    if data.len() < 64 {
        return None;
    }
    let x = read_u256_word(data, 0);
    let y = read_u256_word(data, 32);
    assert(u256_word(x) + u256_word(y) =~= data@.take(64));
    Some((x, y))
}

/// The number that a big-endian byte string stands for.
pub open spec fn be_value(s: Seq<u8>) -> nat
    decreases s.len(),
{
    if s.len() == 0 {
        0
    } else {
        be_value(s.drop_last()) * 256 + s.last() as nat
    }
}

/// 256 to the power `n`.
pub open spec fn pow256(n: nat) -> nat
    decreases n,
{
    if n == 0 {
        1
    } else {
        256 * pow256((n - 1) as nat)
    }
}

/// `pow256` is 256 to the power `n` as vstd defines powers.
pub proof fn lemma_pow256_is_pow(n: nat)
    ensures
        pow256(n) == vstd::arithmetic::power::pow(256, n),
    decreases n,
{
    reveal(vstd::arithmetic::power::pow);
    if n > 0 {
        lemma_pow256_is_pow((n - 1) as nat);
    }
}

/// A big-endian byte string of length `n` stands for less than 256^n.
pub proof fn lemma_be_value_bound(s: Seq<u8>)
    ensures
        be_value(s) < pow256(s.len()),
    decreases s.len(),
{
    if s.len() > 0 {
        lemma_be_value_bound(s.drop_last());
        let p = pow256(s.drop_last().len());
        let v = be_value(s.drop_last());
        assert(v * 256 + s.last() < 256 * p) by (nonlinear_arith)
            requires
                v < p,
                s.last() < 256,
        ;
    }
}

/// Big-endian order: the first byte is the most significant, weighing
/// 256 to the power of the number of bytes after it.
pub proof fn lemma_be_value_msb_first(s: Seq<u8>)
    requires
        s.len() > 0,
    ensures
        be_value(s) == s[0] * pow256((s.len() - 1) as nat) + be_value(s.skip(1)),
{
    let head = seq![s[0]];
    assert(s =~= head + s.skip(1));
    lemma_be_value_concat(head, s.skip(1));
    assert(head.drop_last() =~= Seq::<u8>::empty());
    assert(be_value(head.drop_last()) == 0);
    assert(be_value(head) == s[0] as nat);
    assert(s.skip(1).len() == s.len() - 1);
}

proof fn lemma_bytes_lt_tail(a: Seq<u8>, b: Seq<u8>)
    requires
        a.len() == b.len(),
        a.len() > 0,
        a[0] == b[0],
    ensures
        bytes_lt(a, b) <==> bytes_lt(a.skip(1), b.skip(1)),
{
    let a1 = a.skip(1);
    let b1 = b.skip(1);
    if bytes_lt(a, b) {
        let i = choose|i: int|
            0 <= i < a.len() && i < b.len() && a[i] < b[i] && (forall|j: int|
                0 <= j < i ==> #[trigger] a[j] == b[j]);
        assert(i > 0);
        assert(a1[i - 1] == a[i] && b1[i - 1] == b[i]);
        assert forall|j: int| 0 <= j < i - 1 implies #[trigger] a1[j] == b1[j] by {
            assert(a1[j] == a[j + 1] && b1[j] == b[j + 1]);
        }
        assert(bytes_lt(a1, b1));
    }
    if bytes_lt(a1, b1) {
        let i = choose|i: int|
            0 <= i < a1.len() && i < b1.len() && a1[i] < b1[i] && (forall|j: int|
                0 <= j < i ==> #[trigger] a1[j] == b1[j]);
        assert(a[i + 1] == a1[i] && b[i + 1] == b1[i]);
        assert forall|j: int| 0 <= j < i + 1 implies #[trigger] a[j] == b[j] by {
            if j > 0 {
                assert(a1[j - 1] == a[j] && b1[j - 1] == b[j]);
            }
        }
        assert(bytes_lt(a, b));
    }
}

/// The byte order of equally long strings (the order of addresses) is the
/// order of the numbers they stand for, big-endian.
pub proof fn lemma_bytes_lt_is_numeric_order(a: Seq<u8>, b: Seq<u8>)
    requires
        a.len() == b.len(),
    ensures
        bytes_lt(a, b) <==> be_value(a) < be_value(b),
    decreases a.len(),
{
    if a.len() == 0 {
        assert(!bytes_lt(a, b));
    } else {
        let n = (a.len() - 1) as nat;
        let p = pow256(n);
        let ra = be_value(a.skip(1));
        let rb = be_value(b.skip(1));
        lemma_be_value_msb_first(a);
        lemma_be_value_msb_first(b);
        lemma_be_value_bound(a.skip(1));
        lemma_be_value_bound(b.skip(1));
        let a0 = a[0] as int;
        let b0 = b[0] as int;
        if a0 < b0 {
            assert(forall|j: int| 0 <= j < 0 ==> #[trigger] a[j] == b[j]);
            assert(bytes_lt(a, b));
            assert(a0 * p + ra < b0 * p + rb) by (nonlinear_arith)
                requires
                    a0 < b0,
                    0 <= ra < p,
                    0 <= rb,
            ;
        } else if a0 > b0 {
            if bytes_lt(a, b) {
                let i = choose|i: int|
                    0 <= i < a.len() && i < b.len() && a[i] < b[i] && (forall|j: int|
                        0 <= j < i ==> #[trigger] a[j] == b[j]);
                if i > 0 {
                    assert(a[0] == b[0]);
                }
            }
            assert(b0 * p + rb < a0 * p + ra) by (nonlinear_arith)
                requires
                    b0 < a0,
                    0 <= rb < p,
                    0 <= ra,
            ;
        } else {
            lemma_bytes_lt_tail(a, b);
            lemma_bytes_lt_is_numeric_order(a.skip(1), b.skip(1));
        }
    }
}

/// Appending bytes shifts the value of what came before by one byte per byte.
pub proof fn lemma_be_value_concat(a: Seq<u8>, b: Seq<u8>)
    ensures
        be_value(a + b) == be_value(a) * pow256(b.len()) + be_value(b),
    decreases b.len(),
{
    if b.len() == 0 {
        assert(a + b =~= a);
        assert(be_value(b) == 0);
        assert(pow256(b.len()) == 1);
    } else {
        let b1 = b.drop_last();
        assert((a + b).drop_last() =~= a + b1);
        assert((a + b).last() == b.last());
        lemma_be_value_concat(a, b1);
        let va = be_value(a);
        let p = pow256(b1.len());
        let v1 = be_value(b1);
        assert((va * p + v1) * 256 + b.last() == va * (256 * p) + (v1 * 256 + b.last()))
            by (nonlinear_arith);
        assert(be_value(a + b) == be_value(a + b1) * 256 + b.last());
        assert(be_value(b) == v1 * 256 + b.last());
        assert(pow256(b.len()) == 256 * p);
        assert(be_value(a + b) == va * pow256(b.len()) + be_value(b));
    }
}

proof fn lemma_be_value_push(s: Seq<u8>, b: u8)
    ensures
        be_value(s.push(b)) == be_value(s) * 256 + b,
{
    assert(s.push(b).drop_last() =~= s);
}

/// The eight big-endian bytes of `x` stand for `x`.
pub proof fn lemma_u64_be_value(x: u64)
    ensures
        be_value(u64_be(x)) == x,
{
    let b0 = be_byte(x, 0);
    let b1 = be_byte(x, 1);
    let b2 = be_byte(x, 2);
    let b3 = be_byte(x, 3);
    let b4 = be_byte(x, 4);
    let b5 = be_byte(x, 5);
    let b6 = be_byte(x, 6);
    let b7 = be_byte(x, 7);
    let e = Seq::<u8>::empty();
    assert(u64_be(x) =~= e.push(b0).push(b1).push(b2).push(b3).push(b4).push(b5).push(b6).push(
        b7,
    ));
    lemma_be_value_push(e, b0);
    lemma_be_value_push(e.push(b0), b1);
    lemma_be_value_push(e.push(b0).push(b1), b2);
    lemma_be_value_push(e.push(b0).push(b1).push(b2), b3);
    lemma_be_value_push(e.push(b0).push(b1).push(b2).push(b3), b4);
    lemma_be_value_push(e.push(b0).push(b1).push(b2).push(b3).push(b4), b5);
    lemma_be_value_push(e.push(b0).push(b1).push(b2).push(b3).push(b4).push(b5), b6);
    lemma_be_value_push(e.push(b0).push(b1).push(b2).push(b3).push(b4).push(b5).push(b6), b7);
    lemma_be_byte(x, 0);
    lemma_be_byte(x, 1);
    lemma_be_byte(x, 2);
    lemma_be_byte(x, 3);
    lemma_be_byte(x, 4);
    lemma_be_byte(x, 5);
    lemma_be_byte(x, 6);
    lemma_be_byte(x, 7);
    assert(x == ((((((((x >> 56u64) & 0xffu64) * 256 + ((x >> 48u64) & 0xffu64)) * 256 + ((x
        >> 40u64) & 0xffu64)) * 256 + ((x >> 32u64) & 0xffu64)) * 256 + ((x >> 24u64) & 0xffu64))
        * 256 + ((x >> 16u64) & 0xffu64)) * 256 + ((x >> 8u64) & 0xffu64)) * 256 + ((x >> 0u64)
        & 0xffu64)) by (bit_vector);
}

/// The ABI word of a 256-bit integer is its big-endian form: the word stands
/// for the integer's value.
pub proof fn lemma_u256_word_value(x: U256)
    ensures
        be_value(u256_word(x)) == x@,
        u256_word(x).len() == 32,
{
    let w3 = u64_be(x.limbs@[3]);
    let w2 = u64_be(x.limbs@[2]);
    let w1 = u64_be(x.limbs@[1]);
    let w0 = u64_be(x.limbs@[0]);
    lemma_u64_be_value(x.limbs@[3]);
    lemma_u64_be_value(x.limbs@[2]);
    lemma_u64_be_value(x.limbs@[1]);
    lemma_u64_be_value(x.limbs@[0]);
    lemma_be_value_concat(w3, w2);
    lemma_be_value_concat(w3 + w2, w1);
    lemma_be_value_concat(w3 + w2 + w1, w0);
    reveal_with_fuel(pow256, 9);
    assert(pow256(8) == 18446744073709551616nat);
    let l3 = x.limbs@[3] as nat;
    let l2 = x.limbs@[2] as nat;
    let l1 = x.limbs@[1] as nat;
    let l0 = x.limbs@[0] as nat;
    assert(be_value(w3 + w2) == l3 * 18446744073709551616nat + l2);
    assert(be_value(w3 + w2 + w1) == (l3 * 18446744073709551616nat + l2) * 18446744073709551616nat
        + l1);
    assert(be_value(w3 + w2 + w1 + w0) == ((l3 * 18446744073709551616nat + l2)
        * 18446744073709551616nat + l1) * 18446744073709551616nat + l0);
    assert(u256_word(x) == w3 + w2 + w1 + w0);
    assert(((l3 * 18446744073709551616nat + l2) * 18446744073709551616nat + l1)
        * 18446744073709551616nat + l0 == l0 + l1 * 18446744073709551616nat + l2
        * 340282366920938463463374607431768211456nat + l3
        * 6277101735386680763835789423207666416102355444464034512896nat) by (nonlinear_arith);
}

/// Byte `i` of the big-endian form of `x`, as the masked shift it is.
proof fn lemma_be_byte(x: u64, i: int)
    requires
        0 <= i < 8,
    ensures
        be_byte(x, i) as u64 == (x >> ((56 - 8 * i) as u64)) & 0xffu64,
{
    let s: u64 = (56 - 8 * i) as u64;
    assert((x >> s) & 0xffu64 < 256) by (bit_vector);
}

/// Two integers with the same big-endian bytes are equal.
pub proof fn lemma_u64_be_injective(a: u64, b: u64)
    requires
        u64_be(a) == u64_be(b),
    ensures
        a == b,
{
    assert(u64_be(a)[0] == u64_be(b)[0]);
    assert(u64_be(a)[0] == be_byte(a, 0) && u64_be(b)[0] == be_byte(b, 0));
    lemma_be_byte(a, 0);
    lemma_be_byte(b, 0);
    assert(u64_be(a)[1] == u64_be(b)[1]);
    assert(u64_be(a)[1] == be_byte(a, 1) && u64_be(b)[1] == be_byte(b, 1));
    lemma_be_byte(a, 1);
    lemma_be_byte(b, 1);
    assert(u64_be(a)[2] == u64_be(b)[2]);
    assert(u64_be(a)[2] == be_byte(a, 2) && u64_be(b)[2] == be_byte(b, 2));
    lemma_be_byte(a, 2);
    lemma_be_byte(b, 2);
    assert(u64_be(a)[3] == u64_be(b)[3]);
    assert(u64_be(a)[3] == be_byte(a, 3) && u64_be(b)[3] == be_byte(b, 3));
    lemma_be_byte(a, 3);
    lemma_be_byte(b, 3);
    assert(u64_be(a)[4] == u64_be(b)[4]);
    assert(u64_be(a)[4] == be_byte(a, 4) && u64_be(b)[4] == be_byte(b, 4));
    lemma_be_byte(a, 4);
    lemma_be_byte(b, 4);
    assert(u64_be(a)[5] == u64_be(b)[5]);
    assert(u64_be(a)[5] == be_byte(a, 5) && u64_be(b)[5] == be_byte(b, 5));
    lemma_be_byte(a, 5);
    lemma_be_byte(b, 5);
    assert(u64_be(a)[6] == u64_be(b)[6]);
    assert(u64_be(a)[6] == be_byte(a, 6) && u64_be(b)[6] == be_byte(b, 6));
    lemma_be_byte(a, 6);
    lemma_be_byte(b, 6);
    assert(u64_be(a)[7] == u64_be(b)[7]);
    assert(u64_be(a)[7] == be_byte(a, 7) && u64_be(b)[7] == be_byte(b, 7));
    lemma_be_byte(a, 7);
    lemma_be_byte(b, 7);
    assert(a == b) by (bit_vector)
        requires
            (a >> 56u64) & 0xffu64 == (b >> 56u64) & 0xffu64,
            (a >> 48u64) & 0xffu64 == (b >> 48u64) & 0xffu64,
            (a >> 40u64) & 0xffu64 == (b >> 40u64) & 0xffu64,
            (a >> 32u64) & 0xffu64 == (b >> 32u64) & 0xffu64,
            (a >> 24u64) & 0xffu64 == (b >> 24u64) & 0xffu64,
            (a >> 16u64) & 0xffu64 == (b >> 16u64) & 0xffu64,
            (a >> 8u64) & 0xffu64 == (b >> 8u64) & 0xffu64,
            (a >> 0u64) & 0xffu64 == (b >> 0u64) & 0xffu64,
    ;
}

/// The ABI word of a 256-bit integer determines the integer: decoding a word
/// gives back what was encoded.
pub proof fn lemma_u256_word_injective(x: U256, y: U256)
    requires
        u256_word(x) == u256_word(y),
    ensures
        x == y,
{
    let wx = u256_word(x);
    let wy = u256_word(y);
    assert(wx.subrange(0, 8) =~= u64_be(x.limbs@[3]));
    assert(wy.subrange(0, 8) =~= u64_be(y.limbs@[3]));
    assert(wx.subrange(8, 16) =~= u64_be(x.limbs@[2]));
    assert(wy.subrange(8, 16) =~= u64_be(y.limbs@[2]));
    assert(wx.subrange(16, 24) =~= u64_be(x.limbs@[1]));
    assert(wy.subrange(16, 24) =~= u64_be(y.limbs@[1]));
    assert(wx.subrange(24, 32) =~= u64_be(x.limbs@[0]));
    assert(wy.subrange(24, 32) =~= u64_be(y.limbs@[0]));
    lemma_u64_be_injective(x.limbs@[3], y.limbs@[3]);
    lemma_u64_be_injective(x.limbs@[2], y.limbs@[2]);
    lemma_u64_be_injective(x.limbs@[1], y.limbs@[1]);
    lemma_u64_be_injective(x.limbs@[0], y.limbs@[0]);
    assert(x.limbs =~= y.limbs);
}

/// The ABI word of an address is valid address return data, and it
/// determines the address: decoding it gives back the address.
pub proof fn lemma_address_word_roundtrip(a: Address, b: Address)
    ensures
        is_address_return(address_word(a@)),
        address_word(a@) == address_word(b@) ==> a == b,
{
    if address_word(a@) == address_word(b@) {
        assert(address_word(a@).skip(12) =~= a@);
        assert(address_word(b@).skip(12) =~= b@);
        assert(a.bytes =~= b.bytes);
    }
}

} // verus!
