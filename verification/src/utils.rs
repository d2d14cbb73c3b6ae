//! Per-token tax information, the UniswapV2 pair lookup, the tax-checker
//! call, and the storage that makes the pair's tokens spendable by the checker.

use vstd::prelude::*;

use vstd::string::StringSliceAdditionalSpecFns;

use crate::abi::{
    address_word, be_value, lemma_be_value_concat, lemma_bytes_lt_is_numeric_order, lemma_u64_be_value, lemma_u256_word_injective, decode_address_return, decode_u256_pair_return, function_selector,
    is_address_return, keccak256, keccak256_digest, lemma_u256_word_value, push_address_word,
    push_u256_word, selector_of, u256_word, u64_be, zeros,
};
use crate::hex::{prefixed_hex, prefixed_hex_string};
use crate::primitives::{bytes_lt, lemma_bytes_lt_asymmetric, u256_max_value, Address, U256};

verus! {

/// How an EVM call ended, with the output it returned where it returned one.
#[derive(Clone, Debug)]
pub enum CallOutcome {
    Success(Vec<u8>),
    Revert(Vec<u8>),
    Halt,
}

/// A message call: the contract it goes to and its call data.
#[derive(Clone, Debug)]
pub struct ContractCall {
    pub to: Address,
    pub data: Vec<u8>,
}

/// The taxes found for a token, in percent; `None` where no tax of at least
/// one percent was found.
#[derive(Clone, Debug)]
pub struct TaxInfo {
    pub token: Address,
    pub buy: Option<U256>,
    pub sell: Option<U256>,
}

/// Why no tax could be measured for a token.
#[derive(Clone, Debug)]
pub enum TaxCallError {
    /// The UniswapV2 factory knows no pair of the token and WETH.
    PairAddressDoesNotExist(Address),
    /// Asking the factory for the pair reverted, with this output (as hex text).
    CallingPairReverts(Address, String),
    /// Asking the factory for the pair halted.
    CallingPairHalt,
    /// The tax-checker call failed, with this output (as hex text).
    CallingTaxError(Address, String),
}

/// The answer for one token.
#[derive(Clone, Debug)]
pub enum TaxCallResult {
    Success(TaxInfo),
    CallError(TaxCallError),
}

/// A value put into a contract's storage slot.
#[derive(Clone, Copy, Debug)]
pub struct StorageWrite {
    pub account: Address,
    pub slot: U256,
    pub value: U256,
}

/// An account put into the simulated state.
#[derive(Clone, Debug)]
pub struct AccountWrite {
    pub address: Address,
    pub balance: U256,
    pub nonce: u64,
    pub code: Vec<u8>,
    pub code_hash: [u8; 32],
}

/// Changes to lay over the chain state before simulating: accounts first,
/// then storage, each in order.
#[derive(Clone, Debug)]
pub struct StateOverlay {
    pub accounts: Vec<AccountWrite>,
    pub storage: Vec<StorageWrite>,
}

impl StateOverlay {
    /// No changes.
    pub fn new() -> (r: StateOverlay)
        ensures
            r.accounts@.len() == 0,
            r.storage@.len() == 0,
    {
        StateOverlay { accounts: Vec::new(), storage: Vec::new() }
    }
}

/// The WETH token contract.
pub open spec fn weth_bytes() -> Seq<u8> {
    seq![
        0xc0u8, 0x2a, 0xaa, 0x39, 0xb2, 0x23, 0xfe, 0x8d, 0x0a, 0x0e, 0x5c, 0x4f, 0x27, 0xea, 0xd9,
        0x08, 0x3c, 0x75, 0x6c, 0xc2,
    ]
}

/// The UniswapV2 factory contract.
pub open spec fn univ2_factory_bytes() -> Seq<u8> {
    seq![
        0x5cu8, 0x69, 0xbe, 0xe7, 0x01, 0xef, 0x81, 0x4a, 0x2b, 0x6a, 0x3e, 0xdd, 0x4b, 0x16, 0x52,
        0xcb, 0x9c, 0xc5, 0xaa, 0x6f,
    ]
}

/// The WETH address, 0xc02aaa39b223fe8d0a0e5c4f27ead9083c756cc2.
pub fn weth_address() -> (r: Address)
    ensures
        r@ == weth_bytes(),
{
    let r = Address {
        bytes: [
            0xc0, 0x2a, 0xaa, 0x39, 0xb2, 0x23, 0xfe, 0x8d, 0x0a, 0x0e, 0x5c, 0x4f, 0x27, 0xea, 0xd9,
            0x08, 0x3c, 0x75, 0x6c, 0xc2,
        ],
    };
    assert(r@ =~= weth_bytes());
    r
}

/// The UniswapV2 factory address, 0x5C69bEe701ef814a2B6a3EDD4B1652CB9cc5aA6f.
pub fn univ2_factory_address() -> (r: Address)
    ensures
        r@ == univ2_factory_bytes(),
{
    let r = Address {
        bytes: [
            0x5c, 0x69, 0xbe, 0xe7, 0x01, 0xef, 0x81, 0x4a, 0x2b, 0x6a, 0x3e, 0xdd, 0x4b, 0x16, 0x52,
            0xcb, 0x9c, 0xc5, 0xaa, 0x6f,
        ],
    };
    assert(r@ =~= univ2_factory_bytes());
    r
}

/// The signature of the factory's `getPair(address token0, address token1)`.
pub open spec fn get_pair_signature() -> Seq<u8> {
    "getPair(address,address)".spec_bytes()
}

/// The signature of the tax checker's `getTax(address pair, address tokenIn, uint256 dexFee)`.
pub open spec fn get_tax_signature() -> Seq<u8> {
    "getTax(address,address,uint256)".spec_bytes()
}

/// Call data of `getPair(token0, token1)`.
pub open spec fn get_pair_calldata(token0: Seq<u8>, token1: Seq<u8>) -> Seq<u8> {
    selector_of(get_pair_signature()) + address_word(token0) + address_word(token1)
}

/// Call data of `getTax(pair, token_in, fee)`, the fee given as its ABI word.
pub open spec fn get_tax_calldata(pair: Seq<u8>, token_in: Seq<u8>, fee_word: Seq<u8>) -> Seq<u8> {
    selector_of(get_tax_signature()) + address_word(pair) + address_word(token_in) + fee_word
}

/// The pair's tokens in the factory's order: the smaller address first.
pub open spec fn pair_tokens(token: Seq<u8>) -> (Seq<u8>, Seq<u8>) {
    if bytes_lt(weth_bytes(), token) {
        (weth_bytes(), token)
    } else {
        (token, weth_bytes())
    }
}

/// The factory is asked about the pair's tokens in ascending order: the
/// second never comes before the first, and the two are the token and WETH.
pub proof fn lemma_pair_tokens_sorted(token: Seq<u8>)
    ensures
        !bytes_lt(pair_tokens(token).1, pair_tokens(token).0),
        pair_tokens(token) == (weth_bytes(), token) || pair_tokens(token) == (token, weth_bytes()),
{
    lemma_bytes_lt_asymmetric(weth_bytes(), token);
}

/// Strict ABI decoding of `getTax` call data: the selector, then exactly three
/// words, the two address words zero-padded. Gives the pair, the token and
/// the fee's value.
pub open spec fn decode_get_tax_call(data: Seq<u8>) -> Option<(Seq<u8>, Seq<u8>, nat)> {
    if data.len() == 100 && data.take(4) == selector_of(get_tax_signature()) && all_zero(
        data.subrange(4, 16),
    ) && all_zero(data.subrange(36, 48)) {
        Some((data.subrange(16, 36), data.subrange(48, 68), be_value(data.subrange(68, 100))))
    } else {
        None
    }
}

proof fn lemma_be_value_zeros(n: nat)
    ensures
        be_value(zeros(n)) == 0,
    decreases n,
{
    if n > 0 {
        assert(zeros(n).drop_last() =~= zeros((n - 1) as nat));
        lemma_be_value_zeros((n - 1) as nat);
    }
}

/// The value of the ABI word of a `u64` is the `u64`.
pub proof fn lemma_uint_word_value(v: u64)
    ensures
        be_value(uint_word(v)) == v,
        uint_word(v).len() == 32,
{
    lemma_be_value_zeros(24);
    lemma_u64_be_value(v);
    lemma_be_value_concat(zeros(24), u64_be(v));
}

/// Call data built by [`TaxInfo::encode_call`] (100 bytes) decodes back, under
/// strict ABI decoding, to the pair, the token and the fee 997.
pub proof fn lemma_get_tax_calldata_roundtrip(data: Seq<u8>, pair: Address, token: Address)
    requires
        data == get_tax_calldata(pair@, token@, uint_word(997)),
        data.len() == 100,
    ensures
        decode_get_tax_call(data) == Some((pair@, token@, 997nat)),
{
    let sel = selector_of(get_tax_signature());
    let wp = address_word(pair@);
    let wt = address_word(token@);
    let wf = uint_word(997);
    lemma_uint_word_value(997);
    assert(sel.len() == 4);
    assert(data.take(4) =~= sel);
    assert(data.subrange(4, 16) =~= zeros(12));
    assert(data.subrange(36, 48) =~= zeros(12));
    assert(data.subrange(16, 36) =~= pair@);
    assert(data.subrange(48, 68) =~= token@);
    assert(data.subrange(68, 100) =~= wf);
}

/// Strict ABI decoding of `getPair` call data: the selector, then exactly two
/// zero-padded address words. Gives the two tokens.
pub open spec fn decode_get_pair_call(data: Seq<u8>) -> Option<(Seq<u8>, Seq<u8>)> {
    if data.len() == 68 && data.take(4) == selector_of(get_pair_signature()) && all_zero(
        data.subrange(4, 16),
    ) && all_zero(data.subrange(36, 48)) {
        Some((data.subrange(16, 36), data.subrange(48, 68)))
    } else {
        None
    }
}

/// The factory is asked about the token and WETH, the numerically smaller
/// address (as a 160-bit number) first.
pub proof fn lemma_pair_tokens_ascending(token: Seq<u8>)
    requires
        token.len() == 20,
    ensures
        be_value(pair_tokens(token).0) <= be_value(pair_tokens(token).1),
        (pair_tokens(token).0 == token && pair_tokens(token).1 == weth_bytes()) || (pair_tokens(
            token,
        ).0 == weth_bytes() && pair_tokens(token).1 == token),
{
    lemma_bytes_lt_is_numeric_order(weth_bytes(), token);
}

/// The call data of the pair lookup (68 bytes) decodes, under strict ABI
/// decoding, to the token and WETH in ascending numeric order.
pub proof fn lemma_pair_call_decodes(token: Address, data: Seq<u8>)
    requires
        data == get_pair_calldata(pair_tokens(token@).0, pair_tokens(token@).1),
        data.len() == 68,
    ensures
        decode_get_pair_call(data) matches Some((t0, t1)) && be_value(t0) <= be_value(t1) && ((t0
            == token@ && t1 == weth_bytes()) || (t0 == weth_bytes() && t1 == token@)),
{
    lemma_pair_tokens_ascending(token@);
    let t0 = pair_tokens(token@).0;
    let t1 = pair_tokens(token@).1;
    let sel = selector_of(get_pair_signature());
    assert(sel.len() == 4);
    assert(data.take(4) =~= sel);
    assert(data.subrange(4, 16) =~= zeros(12));
    assert(data.subrange(36, 48) =~= zeros(12));
    assert(data.subrange(16, 36) =~= t0);
    assert(data.subrange(48, 68) =~= t1);
}

/// All bytes are zero.
pub open spec fn all_zero(s: Seq<u8>) -> bool {
    forall|i: int| 0 <= i < s.len() ==> s[i] == 0
}

/// What the pair lookup for `token` gives for each way the factory call can end.
pub open spec fn is_pair_result(
    token: Address,
    outcome: CallOutcome,
    r: Result<Address, TaxCallError>,
) -> bool {
    match outcome {
        CallOutcome::Success(out) => if all_zero(out@.skip(12)) {
            r matches Err(TaxCallError::PairAddressDoesNotExist(t)) && t == token
        } else {
            r matches Ok(p) && address_word(p@) == out@
        },
        CallOutcome::Revert(out) => r matches Err(TaxCallError::CallingPairReverts(t, msg)) && t
            == token && msg@ == prefixed_hex(out@),
        CallOutcome::Halt => r matches Err(TaxCallError::CallingPairHalt),
    }
}

/// A tax field after a raw tax (in basis points) was read: a raw tax above 99
/// is stored in whole percent, rounded down; otherwise the field is left as it was.
pub open spec fn tax_field_update(before: Option<U256>, raw: nat, after: Option<U256>) -> bool {
    if raw > 99 {
        after matches Some(q) && q@ == raw / 100
    } else {
        after == before
    }
}

/// What reading the tax checker's output does to a `TaxInfo`.
pub open spec fn decodes_tax_output(before: TaxInfo, output: Seq<u8>, after: TaxInfo) -> bool {
    &&& after.token == before.token
    &&& tax_field_update(before.buy, be_value(output.take(32)), after.buy)
    &&& tax_field_update(before.sell, be_value(output.skip(32)), after.sell)
}

/// Reading the checker's output records each tax above 99 basis points, of
/// any size, as that many basis points divided by 100 (whole percent, rounded
/// down); a tax of at most 99 basis points leaves its field as it was. The
/// buy tax is the first word's value, the sell tax the second's.
pub proof fn lemma_decoded_taxes_in_percent(before: TaxInfo, output: Seq<u8>, after: TaxInfo)
    requires
        output.len() == 64,
        decodes_tax_output(before, output, after),
    ensures
        after.token == before.token,
        be_value(output.subrange(0, 32)) > 99 ==> (after.buy matches Some(q) && q@ == be_value(
            output.subrange(0, 32),
        ) / 100),
        be_value(output.subrange(0, 32)) <= 99 ==> after.buy == before.buy,
        be_value(output.subrange(32, 64)) > 99 ==> (after.sell matches Some(q) && q@ == be_value(
            output.subrange(32, 64),
        ) / 100),
        be_value(output.subrange(32, 64)) <= 99 ==> after.sell == before.sell,
{
    assert(output.take(32) =~= output.subrange(0, 32));
    assert(output.skip(32) =~= output.subrange(32, 64));
}

/// The pair lookup's answer: the zero address (all twenty bytes zero) means no
/// pair, any other address is the pair; a revert is reported with its output
/// as hex text, a halt as such.
pub proof fn lemma_pair_result_meaning(
    token: Address,
    outcome: CallOutcome,
    r: Result<Address, TaxCallError>,
)
    requires
        is_pair_result(token, outcome, r),
        outcome matches CallOutcome::Success(out) ==> is_address_return(out@),
    ensures
        match outcome {
            CallOutcome::Success(out) => {
                &&& (forall|i: int| 12 <= i < 32 ==> out@[i] == 0) ==> (r matches Err(
                    TaxCallError::PairAddressDoesNotExist(a),
                ) && a == token)
                &&& (exists|i: int| 12 <= i < 32 && out@[i] != 0) ==> (r matches Ok(p) && p@
                    == out@.subrange(12, 32))
            },
            CallOutcome::Revert(out) => r matches Err(TaxCallError::CallingPairReverts(a, m)) && a
                == token && m@ == prefixed_hex(out@),
            CallOutcome::Halt => r matches Err(TaxCallError::CallingPairHalt),
        },
{
    match outcome {
        CallOutcome::Success(out) => {
            if forall|i: int| 12 <= i < 32 ==> out@[i] == 0 {
                assert forall|j: int| 0 <= j < out@.skip(12).len() implies out@.skip(12)[j]
                    == 0 by {
                    assert(out@.skip(12)[j] == out@[12 + j]);
                }
            } else {
                let i = choose|i: int| 12 <= i < 32 && out@[i] != 0;
                assert(out@.skip(12)[i - 12] == out@[i]);
                if let Ok(p) = r {
                    assert(address_word(p@).subrange(12, 32) =~= p@);
                }
            }
        },
        _ => {},
    }
}

/// The fixed contracts and signatures the lookups use: WETH at
/// 0xc02aaa39b223fe8d0a0e5c4f27ead9083c756cc2, the UniswapV2 factory at
/// 0x5c69bee701ef814a2b6a3edd4b1652cb9cc5aa6f, and the two function signatures.
pub proof fn lemma_fixed_contracts()
    ensures
        weth_bytes() =~= seq![
            0xc0u8, 0x2a, 0xaa, 0x39, 0xb2, 0x23, 0xfe, 0x8d, 0x0a, 0x0e, 0x5c, 0x4f, 0x27, 0xea,
            0xd9, 0x08, 0x3c, 0x75, 0x6c, 0xc2,
        ],
        univ2_factory_bytes() =~= seq![
            0x5cu8, 0x69, 0xbe, 0xe7, 0x01, 0xef, 0x81, 0x4a, 0x2b, 0x6a, 0x3e, 0xdd, 0x4b, 0x16,
            0x52, 0xcb, 0x9c, 0xc5, 0xaa, 0x6f,
        ],
        get_pair_signature() == "getPair(address,address)".spec_bytes(),
        get_tax_signature() == "getTax(address,address,uint256)".spec_bytes(),
{
}

/// The ABI word of a `u64` value.
pub open spec fn uint_word(v: u64) -> Seq<u8> {
    zeros(24) + u64_be(v)
}

/// The storage slot of `key` in a Solidity mapping kept at slot `slot_word`.
pub open spec fn mapping_slot(key: Seq<u8>, slot_word: Seq<u8>) -> Seq<u8> {
    keccak256_digest(address_word(key) + slot_word)
}

/// The storage slot of `[key][key_after]` in a Solidity mapping of mappings
/// kept at slot `slot_word` (such as an ERC-20 allowance table).
pub open spec fn nested_mapping_slot(slot_word: Seq<u8>, key: Seq<u8>, key_after: Seq<u8>) -> Seq<
    u8,
> {
    mapping_slot(key_after, mapping_slot(key, slot_word))
}

/// Solidity's storage layout of a mapping of mappings: the slot of
/// `[key][key_after]` is the Keccak-256 of the zero-padded `key_after`
/// followed by the slot of `[key]`, which is the Keccak-256 of the
/// zero-padded `key` followed by the mapping's own slot word.
pub proof fn lemma_nested_mapping_slot_layout(slot_word: Seq<u8>, key: Seq<u8>, key_after: Seq<u8>)
    ensures
        nested_mapping_slot(slot_word, key, key_after) == keccak256_digest(
            Seq::new(12, |i: int| 0u8) + key_after + keccak256_digest(
                Seq::new(12, |i: int| 0u8) + key + slot_word,
            ),
        ),
{
    assert(zeros(12) =~= Seq::new(12, |i: int| 0u8));
    assert(address_word(key) + slot_word =~= Seq::new(12, |i: int| 0u8) + key + slot_word);
    let inner = keccak256_digest(address_word(key) + slot_word);
    assert(address_word(key_after) + inner =~= Seq::new(12, |i: int| 0u8) + key_after + inner);
}

/// Writes `account[slot] = value` for the slots `[pair][spender]` of the
/// mappings kept at slots 0 to 99, appended in slot order.
pub open spec fn is_fake_approval(
    before: Seq<StorageWrite>,
    after: Seq<StorageWrite>,
    token: Address,
    pair: Address,
    spender: Address,
    value: nat,
) -> bool {
    &&& after.len() == before.len() + 100
    &&& after.take(before.len() as int) == before
    &&& forall|i: int|
        #![trigger after[before.len() + i]]
        0 <= i < 100 ==> {
            let w = after[before.len() + i];
            &&& w.account == token
            &&& w.value@ == value
            &&& u256_word(w.slot) == nested_mapping_slot(uint_word(i as u64), pair@, spender@)
        }
}

/// Where a storage write goes: the account and the slot's value.
pub open spec fn write_key(w: StorageWrite) -> (Seq<u8>, nat) {
    (w.account@, w.slot@)
}

/// Contract storage after laying `writes` over `storage`, in order: each slot
/// holds the value of the last write to it, or what it held before. Storage
/// is a total map from (account, slot) to value.
pub open spec fn apply_storage(
    storage: spec_fn((Seq<u8>, nat)) -> nat,
    writes: Seq<StorageWrite>,
) -> spec_fn((Seq<u8>, nat)) -> nat
    decreases writes.len(),
{
    if writes.len() == 0 {
        storage
    } else {
        let prev = apply_storage(storage, writes.drop_last());
        let w = writes.last();
        |k: (Seq<u8>, nat)|
            if k == write_key(w) {
                w.value@
            } else {
                prev(k)
            }
    }
}

/// A slot that `writes` touches ends with a value that does not depend on
/// where the writes started; a slot it does not touch keeps its value.
proof fn lemma_apply_storage_at(
    s1: spec_fn((Seq<u8>, nat)) -> nat,
    s2: spec_fn((Seq<u8>, nat)) -> nat,
    writes: Seq<StorageWrite>,
    k: (Seq<u8>, nat),
)
    ensures
        (exists|i: int| 0 <= i < writes.len() && write_key(#[trigger] writes[i]) == k) ==> apply_storage(
            s1,
            writes,
        )(k) == apply_storage(s2, writes)(k),
        !(exists|i: int| 0 <= i < writes.len() && write_key(#[trigger] writes[i]) == k) ==> apply_storage(
            s1,
            writes,
        )(k) == s1(k),
    decreases writes.len(),
{
    if writes.len() > 0 {
        let w0 = writes.drop_last();
        lemma_apply_storage_at(s1, s2, w0, k);
        if write_key(writes.last()) != k {
            if exists|i: int| 0 <= i < writes.len() && write_key(#[trigger] writes[i]) == k {
                let i = choose|i: int| 0 <= i < writes.len() && write_key(#[trigger] writes[i]) == k;
                assert(i < writes.len() - 1);
                assert(w0[i] == writes[i]);
            } else {
                assert forall|i: int| 0 <= i < w0.len() implies write_key(#[trigger] w0[i]) != k by {
                    assert(w0[i] == writes[i]);
                }
            }
        } else {
            assert(writes[writes.len() - 1] == writes.last());
        }
    }
}

/// Laying `a` then `b` is laying `a + b`.
proof fn lemma_apply_storage_concat(
    s: spec_fn((Seq<u8>, nat)) -> nat,
    a: Seq<StorageWrite>,
    b: Seq<StorageWrite>,
)
    ensures
        apply_storage(s, a + b) == apply_storage(apply_storage(s, a), b),
    decreases b.len(),
{
    if b.len() == 0 {
        assert(a + b =~= a);
    } else {
        assert((a + b).drop_last() =~= a + b.drop_last());
        assert((a + b).last() == b.last());
        lemma_apply_storage_concat(s, a, b.drop_last());
        assert(apply_storage(s, a + b) =~= apply_storage(apply_storage(s, a), b));
    }
}

/// Writes to the same places with the same values have the same effect.
proof fn lemma_apply_storage_congruent(
    s: spec_fn((Seq<u8>, nat)) -> nat,
    a: Seq<StorageWrite>,
    b: Seq<StorageWrite>,
)
    requires
        a.len() == b.len(),
        forall|i: int|
            0 <= i < a.len() ==> write_key(#[trigger] a[i]) == write_key(b[i]) && a[i].value@
                == b[i].value@,
    ensures
        apply_storage(s, a) == apply_storage(s, b),
    decreases a.len(),
{
    if a.len() > 0 {
        let a0 = a.drop_last();
        let b0 = b.drop_last();
        assert forall|i: int| 0 <= i < a0.len() implies write_key(#[trigger] a0[i]) == write_key(
            b0[i],
        ) && a0[i].value@ == b0[i].value@ by {
            assert(a0[i] == a[i]);
            assert(b0[i] == b[i]);
        }
        lemma_apply_storage_congruent(s, a0, b0);
        assert(write_key(a[a.len() - 1]) == write_key(b[b.len() - 1]));
        assert(apply_storage(s, a) =~= apply_storage(s, b));
    }
}

/// Laying the same writes twice is laying them once.
proof fn lemma_apply_storage_idempotent(s: spec_fn((Seq<u8>, nat)) -> nat, w: Seq<StorageWrite>)
    ensures
        apply_storage(apply_storage(s, w), w) == apply_storage(s, w),
{
    let once = apply_storage(s, w);
    assert forall|k: (Seq<u8>, nat)| #[trigger] apply_storage(once, w)(k) == once(k) by {
        lemma_apply_storage_at(once, s, w, k);
    }
    assert(apply_storage(once, w) =~= once);
}

/// Making the fake approval twice leaves the storage as making it once: the
/// second round writes the same values to the same slots.
pub proof fn lemma_fake_approval_idempotent(
    storage: spec_fn((Seq<u8>, nat)) -> nat,
    before: Seq<StorageWrite>,
    once: Seq<StorageWrite>,
    twice: Seq<StorageWrite>,
    token: Address,
    pair: Address,
    spender: Address,
    value: nat,
)
    requires
        is_fake_approval(before, once, token, pair, spender, value),
        is_fake_approval(once, twice, token, pair, spender, value),
    ensures
        apply_storage(storage, twice) == apply_storage(storage, once),
{
    let w1 = once.skip(before.len() as int);
    let w2 = twice.skip(once.len() as int);
    assert(once =~= before + w1);
    assert(twice =~= once + w2);
    assert forall|i: int| 0 <= i < w2.len() implies write_key(#[trigger] w2[i]) == write_key(w1[i])
        && w2[i].value@ == w1[i].value@ by {
        assert(w2[i] == twice[once.len() + i]);
        assert(w1[i] == once[before.len() + i]);
        lemma_u256_word_injective(w2[i].slot, w1[i].slot);
    }
    let base = apply_storage(storage, before);
    lemma_apply_storage_concat(storage, once, w2);
    lemma_apply_storage_congruent(apply_storage(storage, once), w2, w1);
    lemma_apply_storage_concat(storage, before, w1);
    lemma_apply_storage_idempotent(base, w1);
}

/// The fake approval appends exactly 100 writes after the earlier ones, which
/// stay; the `i`-th sets, in the token's storage, the slot Solidity gives to
/// `[pair][spender]` in a mapping of mappings kept at slot `i` (the word of
/// `i` is 32 bytes standing for `i`), to the given value.
pub proof fn lemma_fake_approval_meaning(
    before: Seq<StorageWrite>,
    after: Seq<StorageWrite>,
    token: Address,
    pair: Address,
    spender: Address,
    value: nat,
)
    requires
        is_fake_approval(before, after, token, pair, spender, value),
    ensures
        after.len() == before.len() + 100,
        forall|k: int| 0 <= k < before.len() ==> #[trigger] after[k] == before[k],
        forall|i: int|
            #![trigger after[before.len() + i]]
            0 <= i < 100 ==> {
                let w = after[before.len() + i];
                &&& w.account == token
                &&& w.value@ == value
                &&& uint_word(i as u64).len() == 32
                &&& be_value(uint_word(i as u64)) == i
                &&& u256_word(w.slot) == keccak256_digest(
                    Seq::new(12, |j: int| 0u8) + spender@ + keccak256_digest(
                        Seq::new(12, |j: int| 0u8) + pair@ + uint_word(i as u64),
                    ),
                )
            },
{
    assert forall|k: int| 0 <= k < before.len() implies #[trigger] after[k] == before[k] by {
        assert(after.take(before.len() as int)[k] == after[k]);
    }
    assert forall|i: int|
        #![trigger after[before.len() + i]]
        0 <= i < 100 implies {
        let w = after[before.len() + i];
        &&& w.account == token
        &&& w.value@ == value
        &&& uint_word(i as u64).len() == 32
        &&& be_value(uint_word(i as u64)) == i
        &&& u256_word(w.slot) == keccak256_digest(
            Seq::new(12, |j: int| 0u8) + spender@ + keccak256_digest(
                Seq::new(12, |j: int| 0u8) + pair@ + uint_word(i as u64),
            ),
        )
    } by {
        lemma_uint_word_value(i as u64);
        lemma_nested_mapping_slot_layout(uint_word(i as u64), pair@, spender@);
    }
}

proof fn lemma_zero_u64_be()
    ensures
        u64_be(0) == zeros(8),
{
    assert forall|i: int| 0 <= i < 8 implies u64_be(0)[i] == 0u8 by {
        let s: u64 = (56 - 8 * i) as u64;
        assert((0u64 >> s) & 0xffu64 == 0) by (bit_vector);
    }
    assert(u64_be(0) =~= zeros(8));
}

/// The word of a small integer is the word of its `U256`.
pub proof fn lemma_uint_word(v: u64, x: U256)
    requires
        x.limbs@ == seq![v, 0u64, 0u64, 0u64],
    ensures
        u256_word(x) == uint_word(v),
{
    lemma_zero_u64_be();
    assert(u256_word(x) =~= uint_word(v));
}

/// The storage slot of `[key][key_after]` in a Solidity mapping of mappings kept
/// at `slot`: each level hashes the ABI encoding of the key and the slot.
pub fn map_location(slot: U256, key: Address, key_after: Address) -> (r: U256)
    ensures
        u256_word(r) == nested_mapping_slot(u256_word(slot), key@, key_after@),
{
    let mut input: Vec<u8> = Vec::new();
    push_address_word(&mut input, &key);
    push_u256_word(&mut input, &slot);
    let inner = keccak256(input.as_slice());
    let key_slot_hash = crate::abi::u256_from_word(&inner);
    let mut outer_input: Vec<u8> = Vec::new();
    push_address_word(&mut outer_input, &key_after);
    push_u256_word(&mut outer_input, &key_slot_hash);
    let outer = keccak256(outer_input.as_slice());
    crate::abi::u256_from_word(&outer)
}

/// Makes the first 100 mapping slots say that `pair` allows `spender` to move
/// any amount of `token`: wherever the token keeps its allowance table, the
/// entry `[pair][spender]` is set to the largest value.
pub fn insert_fake_approval(token: Address, pair: Address, spender: Address, db: &mut StateOverlay)
    ensures
        final(db).accounts@ == old(db).accounts@,
        is_fake_approval(
            old(db).storage@,
            final(db).storage@,
            token,
            pair,
            spender,
            u256_max_value(),
        ),
{
    let ghost before = db.storage@;
    let max_uint = U256::max_value();
    let mut i: u64 = 0;
    while i < 100
        invariant
            0 <= i <= 100,
            db.accounts@ == old(db).accounts@,
            before == old(db).storage@,
            max_uint@ == u256_max_value(),
            db.storage@.len() == before.len() + i,
            db.storage@.take(before.len() as int) == before,
            forall|k: int|
                #![trigger db.storage@[before.len() + k]]
                0 <= k < i ==> {
                    let w = db.storage@[before.len() + k];
                    &&& w.account == token
                    &&& w.value@ == u256_max_value()
                    &&& u256_word(w.slot) == nested_mapping_slot(
                        uint_word(k as u64),
                        pair@,
                        spender@,
                    )
                },
        decreases 100 - i,
    {
        let index = U256::from_u64(i);
        proof {
            lemma_uint_word(i, index);
        }
        let slot_new = map_location(index, pair, spender);
        let ghost prev = db.storage@;
        db.storage.push(StorageWrite { account: token, slot: slot_new, value: max_uint });
        assert(db.storage@.take(before.len() as int) =~= prev.take(before.len() as int));
        assert(db.storage@[before.len() + i as int] == StorageWrite {
            account: token,
            slot: slot_new,
            value: max_uint,
        });
        i = i + 1;
    }
}

impl TaxInfo {
    /// A token with no tax found yet.
    pub fn new(token: Address) -> (r: TaxInfo)
        ensures
            r.token == token,
            r.buy is None,
            r.sell is None,
    {
        TaxInfo { token, buy: None, sell: None }
    }

    /// The call that asks the UniswapV2 factory for the pair of this token and
    /// WETH, the two tokens in ascending order.
    pub fn pair_call(&self) -> (r: ContractCall)
        ensures
            r.to@ == univ2_factory_bytes(),
            r.data@ == get_pair_calldata(pair_tokens(self.token@).0, pair_tokens(self.token@).1),
            r.data@.len() == 68,
    {
        let weth = weth_address();
        let univ2_factory = univ2_factory_address();
        let (token_0, token_1) = if weth.lt(&self.token) {
            (weth, self.token)
        } else {
            (self.token, weth)
        };
        let mut data = function_selector("getPair(address,address)");
        push_address_word(&mut data, &token_0);
        push_address_word(&mut data, &token_1);
        ContractCall { to: univ2_factory, data }
    }

    /// The pair address from the outcome of [`TaxInfo::pair_call`]; successful
    /// output must be one ABI-encoded address, as strict decoding demands.
    pub fn get_pair_address(&self, outcome: &CallOutcome) -> (r: Result<Address, TaxCallError>)
        requires
            outcome matches CallOutcome::Success(out) ==> is_address_return(out@),
        ensures
            is_pair_result(self.token, *outcome, r),
    {
        match outcome {
            CallOutcome::Success(output) => {
                let decoded = decode_address_return(output.as_slice());
                match decoded {
                    Some(pair_address) => {
                        assert(address_word(pair_address@).skip(12) =~= pair_address@);
                        if !pair_address.is_zero() {
                            assert(!all_zero(output@.skip(12))) by {
                                let k = choose|k: int| 0 <= k < 20 && pair_address@[k] != 0;
                                assert(output@.skip(12)[k] == pair_address@[k]);
                            }
                            Ok(pair_address)
                        } else {
                            Err(TaxCallError::PairAddressDoesNotExist(self.token))
                        }
                    },
                    // `requires` makes the output decodable, so this arm is never taken
                    None => Err(TaxCallError::CallingPairHalt),
                }
            },
            CallOutcome::Revert(output) => {
                Err(TaxCallError::CallingPairReverts(self.token, prefixed_hex_string(output.as_slice())))
            },
            CallOutcome::Halt => Err(TaxCallError::CallingPairHalt),
        }
    }

    /// Call data of the tax checker's `getTax(pair, token, 997)`.
    pub fn encode_call(&self, pair: Address) -> (r: Vec<u8>)
        ensures
            r@ == get_tax_calldata(pair@, self.token@, uint_word(997)),
            r@.len() == 100,
    {
        let mut data = function_selector("getTax(address,address,uint256)");
        push_address_word(&mut data, &pair);
        push_address_word(&mut data, &self.token);
        let fee = U256::from_u64(997);
        proof {
            lemma_uint_word(997, fee);
        }
        push_u256_word(&mut data, &fee);
        data
    }

    /// Reads `(buyTax, sellTax)` from the tax checker's successful output
    /// (strictly ABI-decoded: exactly two words) and records each tax that
    /// exceeds 99 basis points, in whole percent.
    pub fn decode_success_call(&mut self, output: &[u8])
        requires
            output@.len() == 64,
        ensures
            final(self).token == old(self).token,
            tax_field_update(old(self).buy, be_value(output@.take(32)), final(self).buy),
            tax_field_update(old(self).sell, be_value(output@.skip(32)), final(self).sell),
            decodes_tax_output(*old(self), output@, *final(self)),
    {
        let decoded = decode_u256_pair_return(output);
        match decoded {
            Some((buy_tax, sell_tax)) => {
                proof {
                    lemma_u256_word_value(buy_tax);
                    lemma_u256_word_value(sell_tax);
                    assert(output@.take(32) =~= u256_word(buy_tax));
                    assert(output@.skip(32) =~= u256_word(sell_tax));
                }
                let ninety_nine = U256::from_u64(99);
                let hundred = U256::from_u64(100);
                if buy_tax.gt(&ninety_nine) {
                    self.buy = Some(crate::primitives::u256_div(buy_tax, hundred));
                }
                if sell_tax.gt(&ninety_nine) {
                    self.sell = Some(crate::primitives::u256_div(sell_tax, hundred));
                }
            },
            None => {},
        }
    }
}

} // verus!
