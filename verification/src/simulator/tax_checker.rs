//! Measuring a token's taxes with the tax-checker contract on a sandbox fork.

use vstd::prelude::*;

use crate::abi::{
    be_value, decode_u256_pair_prefix, keccak256, keccak256_digest, lemma_u256_word_value,
    push_address_word, push_u256_word, u256_word,
};
use crate::primitives::{u256_max_value, Address, U256};
use crate::simulator::helpers::map_location;
use crate::simulator::simulator::{SimulatorErrors, TransactInfo};
use crate::utils::{
    get_tax_calldata, is_fake_approval, lemma_uint_word, nested_mapping_slot, uint_word,
    AccountWrite, StateOverlay, StorageWrite,
};

verus! {

/// The tax-checker contract: where it is deployed in the simulation, the
/// account that calls it, and its runtime code.
#[derive(Clone, Debug)]
pub struct TaxChecker {
    pub address: Address,
    pub controller: Address,
    pub code: Vec<u8>,
}

/// 69 ether, in wei: the balance given to the checker's controller.
pub open spec fn controller_balance() -> nat {
    69000000000000000000
}

/// The allowance written by the sandbox fake approval: 2^256 - 4.
pub open spec fn sandbox_allowance() -> nat {
    (u256_max_value() - 3) as nat
}

/// The largest tax, in basis points, that is taken as a measurement.
pub open spec fn max_plausible_tax() -> nat {
    9970
}

/// The checker's account: its code, with its Keccak-256 as code hash, no
/// balance, nonce zero.
pub open spec fn is_checker_account(a: AccountWrite, checker: TaxChecker) -> bool {
    &&& a.address == checker.address
    &&& a.balance@ == 0
    &&& a.nonce == 0
    &&& a.code@ == checker.code@
    &&& a.code_hash@ == keccak256_digest(checker.code@)
}

/// The controller's account: 69 ether, no code (the code hash of empty code),
/// nonce zero.
pub open spec fn is_controller_account(a: AccountWrite, checker: TaxChecker) -> bool {
    &&& a.address == checker.controller
    &&& a.balance@ == controller_balance()
    &&& a.nonce == 0
    &&& a.code@.len() == 0
    &&& a.code_hash@ == keccak256_digest(Seq::<u8>::empty())
}

/// The checker deployed and its controller funded: the checker's address
/// gets its code and no balance, the controller's address (a different
/// account, the caller of the simulated calls) gets 69 ether and no code.
pub proof fn lemma_checker_accounts(checker_account: AccountWrite, controller_account: AccountWrite, checker: TaxChecker)
    requires
        is_checker_account(checker_account, checker),
        is_controller_account(controller_account, checker),
    ensures
        checker_account.address == checker.address,
        checker_account.code@ == checker.code@,
        checker_account.balance@ == 0,
        checker_account.nonce == 0,
        controller_account.address == checker.controller,
        controller_account.balance@ == 69000000000000000000,
        controller_account.code@.len() == 0,
        controller_account.nonce == 0,
        checker_account.code_hash@ == keccak256_digest(checker.code@),
        controller_account.code_hash@ == keccak256_digest(Seq::<u8>::empty()),
{
}

/// The constants of the sandbox: 69 ether for the controller, an allowance
/// of 2^256 - 4, and 9970 basis points as the largest plausible tax.
pub proof fn lemma_sandbox_constants()
    ensures
        controller_balance() == 69000000000000000000,
        sandbox_allowance()
            == 115792089237316195423570985008687907853269984665640564039457584007913129639932,
        max_plausible_tax() == 9970,
{
}

/// Deploys the checker (its code, no balance) and funds its controller with
/// 69 ether (no code); each account's code hash is the Keccak-256 of its code.
pub fn inject_tax_checker_code(checker: &TaxChecker, db: &mut StateOverlay)
    ensures
        final(db).storage@ == old(db).storage@,
        final(db).accounts@.len() == old(db).accounts@.len() + 2,
        final(db).accounts@.take(old(db).accounts@.len() as int) == old(db).accounts@,
        is_checker_account(final(db).accounts@[old(db).accounts@.len() as int], *checker),
        is_controller_account(final(db).accounts@[old(db).accounts@.len() + 1int], *checker),
{
    let ghost before = db.accounts@;
    let code = checker.code.clone();
    assert(code@ =~= checker.code@);
    let code_hash = keccak256(code.as_slice());
    db.accounts.push(
        AccountWrite { address: checker.address, balance: U256::zero(), nonce: 0, code, code_hash },
    );
    let no_code: Vec<u8> = Vec::new();
    let empty_hash = keccak256(no_code.as_slice());
    db.accounts.push(
        AccountWrite {
            address: checker.controller,
            balance: U256::from_u128(69000000000000000000),
            nonce: 0,
            code: no_code,
            code_hash: empty_hash,
        },
    );
    assert(db.accounts@.take(before.len() as int) =~= before);
}

/// Makes the first 100 mapping slots say that `pair` allows the checker to
/// move 2^256 - 4 of `token`.
pub fn insert_fake_approval(token: Address, pair: Address, checker: Address, db: &mut StateOverlay)
    ensures
        final(db).accounts@ == old(db).accounts@,
        is_fake_approval(
            old(db).storage@,
            final(db).storage@,
            token,
            pair,
            checker,
            sandbox_allowance(),
        ),
{
    let ghost before = db.storage@;
    let m: u64 = 0xffff_ffff_ffff_ffff;
    let allowance = U256 { limbs: [0xffff_ffff_ffff_fffc, m, m, m] };
    assert(allowance@ == sandbox_allowance());
    let mut i: u64 = 0;
    while i < 100
        invariant
            0 <= i <= 100,
            db.accounts@ == old(db).accounts@,
            before == old(db).storage@,
            allowance@ == sandbox_allowance(),
            db.storage@.len() == before.len() + i,
            db.storage@.take(before.len() as int) == before,
            forall|k: int|
                #![trigger db.storage@[before.len() + k]]
                0 <= k < i ==> {
                    let w = db.storage@[before.len() + k];
                    &&& w.account == token
                    &&& w.value@ == sandbox_allowance()
                    &&& u256_word(w.slot) == nested_mapping_slot(
                        uint_word(k as u64),
                        pair@,
                        checker@,
                    )
                },
        decreases 100 - i,
    {
        let index = U256::from_u64(i);
        proof {
            lemma_uint_word(i, index);
        }
        let slot_new = map_location(index, pair, checker);
        let ghost prev = db.storage@;
        db.storage.push(StorageWrite { account: token, slot: slot_new, value: allowance });
        assert(db.storage@.take(before.len() as int) =~= prev.take(before.len() as int));
        assert(db.storage@[before.len() + i as int] == StorageWrite {
            account: token,
            slot: slot_new,
            value: allowance,
        });
        i = i + 1;
    }
}

/// The state changes and the transaction that measure the taxes of `token_in`
/// traded through `pair` with the given DEX fee: the checker deployed and its
/// controller funded, the pair's fake approval, and the controller calling
/// `getTax(pair, token_in, fees)` with no value.
pub fn get_tax_setup(token_in: Address, pair: Address, fees: U256, checker: &TaxChecker) -> (r: (
    StateOverlay,
    TransactInfo,
))
    ensures
        r.0.accounts@.len() == 2,
        is_checker_account(r.0.accounts@[0], *checker),
        is_controller_account(r.0.accounts@[1], *checker),
        is_fake_approval(
            Seq::empty(),
            r.0.storage@,
            token_in,
            pair,
            checker.address,
            sandbox_allowance(),
        ),
        r.1.caller == checker.controller,
        r.1.to == checker.address,
        r.1.value@ == 0,
        r.1.data@ == get_tax_calldata(pair@, token_in@, u256_word(fees)),
        r.1.data@.len() == 100,
{
    let mut db = StateOverlay::new();
    inject_tax_checker_code(checker, &mut db);
    assert(db.accounts@.take(0) =~= Seq::<AccountWrite>::empty());
    assert(db.storage@ =~= Seq::<StorageWrite>::empty());
    insert_fake_approval(token_in, pair, checker.address, &mut db);
    let mut data = crate::abi::function_selector("getTax(address,address,uint256)");
    push_address_word(&mut data, &pair);
    push_address_word(&mut data, &token_in);
    push_u256_word(&mut data, &fees);
    let transact_info = TransactInfo {
        caller: checker.controller,
        to: checker.address,
        value: U256::zero(),
        data,
    };
    (db, transact_info)
}

/// What [`get_tax_result`] gives for a simulation's result: `None` when it
/// failed, its output is shorter than two words, or either tax exceeds 9970;
/// otherwise the values of the first two words.
pub open spec fn is_get_tax_result(
    simulated: Result<Vec<u8>, SimulatorErrors>,
    r: Option<(U256, U256)>,
) -> bool {
    &&& r is Some <==> (simulated matches Ok(out) && out@.len() >= 64 && be_value(
        out@.subrange(0, 32),
    ) <= max_plausible_tax() && be_value(out@.subrange(32, 64)) <= max_plausible_tax())
    &&& r matches Some(p) ==> (simulated matches Ok(out) && p.0@ == be_value(out@.subrange(0, 32))
        && p.1@ == be_value(out@.subrange(32, 64)))
}

/// The sandbox measurement succeeds exactly when the simulation gave output
/// of at least two words whose values are both at most 9970 basis points, and
/// then reports those two values (buy first).
pub proof fn lemma_get_tax_result_meaning(
    simulated: Result<Vec<u8>, SimulatorErrors>,
    r: Option<(U256, U256)>,
)
    requires
        is_get_tax_result(simulated, r),
    ensures
        simulated is Err ==> r is None,
        simulated matches Ok(out) ==> {
            &&& out@.len() < 64 ==> r is None
            &&& out@.len() >= 64 && (be_value(out@.subrange(0, 32)) > 9970 || be_value(
                out@.subrange(32, 64),
            ) > 9970) ==> r is None
            &&& out@.len() >= 64 && be_value(out@.subrange(0, 32)) <= 9970 && be_value(
                out@.subrange(32, 64),
            ) <= 9970 ==> (r matches Some(p) && p.0@ == be_value(out@.subrange(0, 32)) && p.1@
                == be_value(out@.subrange(32, 64)))
        },
{
}

/// The `(buyTax, sellTax)` that a simulated `getTax` call reports, in basis
/// points: the first two words of its output. `None` when the simulation
/// failed, the output is shorter than two words, or either tax exceeds 9970.
pub fn get_tax_result(simulated: Result<Vec<u8>, SimulatorErrors>) -> (r: Option<(U256, U256)>)
    ensures
        is_get_tax_result(simulated, r),
{
    let output = match simulated {
        Ok(output) => output,
        Err(_) => return None,
    };
    let decoded = decode_u256_pair_prefix(output.as_slice());
    let (buy_tax, sell_tax) = match decoded {
        Some(d) => d,
        None => {
            return None;
        },
    };
    proof {
        lemma_u256_word_value(buy_tax);
        lemma_u256_word_value(sell_tax);
        let words = u256_word(buy_tax) + u256_word(sell_tax);
        assert(output@.take(64) == words);
        assert(output@.subrange(0, 32) =~= words.subrange(0, 32));
        assert(output@.subrange(32, 64) =~= words.subrange(32, 64));
        assert(words.subrange(0, 32) =~= u256_word(buy_tax));
        assert(words.subrange(32, 64) =~= u256_word(sell_tax));
    }
    let limit = U256::from_u64(9970);
    if buy_tax.gt(&limit) || sell_tax.gt(&limit) {
        return None;
    }
    Some((buy_tax, sell_tax))
}

} // verus!
