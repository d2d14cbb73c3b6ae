use alloy_sol_types::SolValue;
use alloy_dyn_abi::DynSolValue;
use token_tax::abi::push_u256_word;
use token_tax::primitives::{Address, U256};
use token_tax::simulator::helpers;
use token_tax::simulator::simulator::{Simulator, SimulatorErrors, TransactInfo};
use token_tax::simulator::tax_checker::{self, get_tax_result, get_tax_setup, TaxChecker};
use token_tax::token_tax::{token_tax_setup, TaxStep, TokenTaxError, TokenTaxQuery};
use token_tax::utils::{
    insert_fake_approval, map_location, univ2_factory_address, weth_address, CallOutcome,
    StateOverlay, TaxCallError, TaxCallResult, TaxInfo,
};

fn addr(hex: &str) -> Address {
    let s = hex.trim_start_matches("0x");
    let mut bytes = [0u8; 20];
    for i in 0..20 {
        bytes[i] = u8::from_str_radix(&s[2 * i..2 * i + 2], 16).unwrap();
    }
    Address { bytes }
}

fn to_alloy(x: &U256) -> alloy_primitives::U256 {
    alloy_primitives::U256::from_limbs(x.limbs)
}

fn word_of_address(a: &Address) -> Vec<u8> {
    let mut w = vec![0u8; 12];
    w.extend_from_slice(&a.bytes);
    w
}

fn tax_output(buy: u64, sell: u64) -> Vec<u8> {
    let mut out = Vec::new();
    push_u256_word(&mut out, &U256::from_u64(buy));
    push_u256_word(&mut out, &U256::from_u64(sell));
    out
}

fn checker() -> TaxChecker {
    TaxChecker {
        address: addr("0x00000000000000000000000000000000000000c4"),
        controller: addr("0x00000000000000000000000000000000000000c5"),
        code: vec![0x60, 0x80, 0x60, 0x40],
    }
}

const TOKEN: &str = "0x1396D6F2e9056954DFc2775204bB3e2Eb8ab8a5B";
const PAIR: &str = "0x4305BCC56Bb35FaF3edf13421F8D3167df32faB3";

#[test]
fn map_location_matches_dyn_abi_hashing() {
    let key = addr(PAIR);
    let key_after = addr("0x00000000000000000000000000000000000000c4");
    let slot = U256::from_u64(3);
    let alloy_key = alloy_primitives::Address::from(key.bytes);
    let alloy_after = alloy_primitives::Address::from(key_after.bytes);
    let input = DynSolValue::Tuple(vec![
        DynSolValue::Address(alloy_key),
        DynSolValue::Uint(alloy_primitives::U256::from(3u64), 256),
    ]);
    let inner: alloy_primitives::U256 = alloy_primitives::keccak256(input.abi_encode()).into();
    let input = DynSolValue::Tuple(vec![DynSolValue::Address(alloy_after), DynSolValue::Uint(inner, 256)]);
    let expected: alloy_primitives::U256 = alloy_primitives::keccak256(input.abi_encode()).into();
    let got = map_location(slot, key, key_after);
    assert_eq!(to_alloy(&got), expected);
    assert_eq!(to_alloy(&helpers::map_location(slot, key, key_after)), expected);
    assert_ne!(to_alloy(&got), to_alloy(&slot));
}

#[test]
fn fake_approval_covers_first_hundred_slots() {
    let token = addr(TOKEN);
    let pair = addr(PAIR);
    let spender = checker().address;
    let mut db = StateOverlay::new();
    insert_fake_approval(token, pair, spender, &mut db);
    assert_eq!(db.storage.len(), 100);
    assert!(db.accounts.is_empty());
    for (i, w) in db.storage.iter().enumerate() {
        assert_eq!(w.account, token);
        assert_eq!(to_alloy(&w.value), alloy_primitives::U256::MAX);
        assert_eq!(w.slot, map_location(U256::from_u64(i as u64), pair, spender));
    }
    let mut sandbox = StateOverlay::new();
    tax_checker::insert_fake_approval(token, pair, spender, &mut sandbox);
    assert_eq!(sandbox.storage.len(), 100);
    assert_eq!(to_alloy(&sandbox.storage[7].value), alloy_primitives::U256::MAX - alloy_primitives::U256::from(3u64));
    assert_eq!(sandbox.storage[7].slot, db.storage[7].slot);
}

#[test]
fn pair_call_orders_tokens() {
    let low = TaxInfo::new(addr(TOKEN));
    let call = low.pair_call();
    assert_eq!(call.to, univ2_factory_address());
    assert_eq!(&call.data[..4], &[0xe6, 0xa4, 0x39, 0x05]);
    assert_eq!(call.data[4..36].to_vec(), word_of_address(&addr(TOKEN)));
    assert_eq!(call.data[36..68].to_vec(), word_of_address(&weth_address()));

    let high_token = addr("0xf0000000000000000000000000000000000000aa");
    let call = TaxInfo::new(high_token).pair_call();
    assert_eq!(call.data[4..36].to_vec(), word_of_address(&weth_address()));
    assert_eq!(call.data[36..68].to_vec(), word_of_address(&high_token));
    assert_eq!(call.data.len(), 68);
}

#[test]
fn pair_address_from_each_outcome() {
    let info = TaxInfo::new(addr(TOKEN));
    let pair = addr(PAIR);
    match info.get_pair_address(&CallOutcome::Success(word_of_address(&pair))) {
        Ok(p) => assert_eq!(p, pair),
        Err(e) => panic!("unexpected {:?}", e),
    }
    match info.get_pair_address(&CallOutcome::Success(vec![0u8; 32])) {
        Err(TaxCallError::PairAddressDoesNotExist(t)) => assert_eq!(t, addr(TOKEN)),
        other => panic!("unexpected {:?}", other),
    }
    match info.get_pair_address(&CallOutcome::Revert(vec![0x08, 0xc3, 0x79, 0xa0])) {
        Err(TaxCallError::CallingPairReverts(t, msg)) => {
            assert_eq!(t, addr(TOKEN));
            assert_eq!(msg, "0x08c379a0");
        }
        other => panic!("unexpected {:?}", other),
    }
    assert!(matches!(info.get_pair_address(&CallOutcome::Halt), Err(TaxCallError::CallingPairHalt)));
}

#[test]
fn encode_call_is_get_tax_with_fee_997() {
    let info = TaxInfo::new(addr(TOKEN));
    let data = info.encode_call(addr(PAIR));
    let digest = alloy_primitives::keccak256("getTax(address,address,uint256)".as_bytes());
    assert_eq!(&data[..4], &digest[..4]);
    assert_eq!(data[4..36].to_vec(), word_of_address(&addr(PAIR)));
    assert_eq!(data[36..68].to_vec(), word_of_address(&addr(TOKEN)));
    let mut fee = vec![0u8; 32];
    fee[30] = 0x03;
    fee[31] = 0xe5;
    assert_eq!(data[68..100].to_vec(), fee);
    assert_eq!(data.len(), 100);
}

#[test]
fn decode_success_call_records_percent() {
    let mut info = TaxInfo::new(addr(TOKEN));
    info.decode_success_call(&tax_output(500, 99));
    assert_eq!(info.buy, Some(U256::from_u64(5)));
    assert_eq!(info.sell, None);
    info.decode_success_call(&tax_output(100, 1999));
    assert_eq!(info.buy, Some(U256::from_u64(1)));
    assert_eq!(info.sell, Some(U256::from_u64(19)));
    let mut other = TaxInfo::new(addr(TOKEN));
    other.decode_success_call(&tax_output(0, 0));
    assert_eq!(other.buy, None);
    assert_eq!(other.sell, None);
    assert_eq!(other.token, addr(TOKEN));
}

#[test]
fn simulator_environment_and_outcomes() {
    let mut sim = Simulator::new(18_000_000, 1_700_000_000);
    assert_eq!(sim.block_number, U256::from_u64(18_000_000));
    assert_eq!(sim.timestamp, U256::from_u64(1_700_000_000));
    assert_eq!(sim.basefee, U256::from_u64(1_000_000));
    assert_eq!(sim.coinbase, addr("0xDecafC0FFEe15BAD000000000000000000000000"));
    assert_eq!(sim.gas_limit, 7_000_000);
    assert_eq!(sim.gas_price, U256::from_u64(1_000_000_000));
    assert!(sim.transact.is_none());
    let info = TransactInfo { caller: checker().controller, to: checker().address, value: U256::zero(), data: vec![1, 2] };
    sim.set_transact_info(info);
    assert_eq!(sim.transact.as_ref().unwrap().data, vec![1, 2]);
    assert_eq!(sim.gas_limit, 7_000_000);

    assert_eq!(Simulator::execute_commit(Ok(CallOutcome::Success(vec![9]))).unwrap(), vec![9]);
    assert!(matches!(Simulator::execute_commit(Ok(CallOutcome::Revert(vec![7]))), Err(SimulatorErrors::TransactRevert(o)) if o == vec![7]));
    assert!(matches!(Simulator::execute_commit(Ok(CallOutcome::Halt)), Err(SimulatorErrors::TransactHalt(o)) if o == b"0x".to_vec()));
    assert!(matches!(Simulator::execute_commit(Err("out of gas".to_string())), Err(SimulatorErrors::EVMError(m)) if m == "out of gas"));
}

#[test]
fn get_tax_setup_and_result() {
    let c = checker();
    let (db, tx) = get_tax_setup(addr(TOKEN), addr(PAIR), U256::from_u64(997), &c);
    assert_eq!(db.accounts.len(), 2);
    assert_eq!(db.accounts[0].address, c.address);
    assert_eq!(db.accounts[0].code, c.code);
    assert_eq!(db.accounts[0].code_hash, alloy_primitives::keccak256(&c.code).0);
    assert_eq!(to_alloy(&db.accounts[1].balance), alloy_primitives::U256::from(69_000_000_000_000_000_000u128));
    let keccak_empty: Vec<u8> = (0..32)
        .map(|i| u8::from_str_radix(&"c5d2460186f7233c927e7db2dcc703c0e500b653ca82273b7bfad8045d85a470"[2 * i..2 * i + 2], 16).unwrap())
        .collect();
    assert_eq!(db.accounts[1].code_hash.to_vec(), keccak_empty);
    assert_eq!(db.storage.len(), 100);
    assert_eq!(tx.caller, c.controller);
    assert_eq!(tx.to, c.address);
    assert_eq!(tx.value, U256::zero());
    assert_eq!(tx.data, TaxInfo::new(addr(TOKEN)).encode_call(addr(PAIR)));

    assert_eq!(get_tax_result(Ok(tax_output(100, 100))), Some((U256::from_u64(100), U256::from_u64(100))));
    assert_eq!(get_tax_result(Ok(tax_output(9970, 0))), Some((U256::from_u64(9970), U256::zero())));
    assert_eq!(get_tax_result(Ok(tax_output(9971, 0))), None);
    assert_eq!(get_tax_result(Ok(tax_output(0, 10000))), None);
    let mut longer = tax_output(3, 4);
    longer.extend_from_slice(&[1, 2, 3]);
    assert_eq!(get_tax_result(Ok(longer)), Some((U256::from_u64(3), U256::from_u64(4))));
    assert_eq!(get_tax_result(Ok(vec![0u8; 63])), None);
    assert_eq!(get_tax_result(Err(SimulatorErrors::TransactHalt(b"0x".to_vec()))), None);
}

#[test]
fn empty_request_is_refused() {
    match TokenTaxQuery::new(Vec::new(), checker().address) {
        Err(e) => {
            assert_eq!(e, TokenTaxError::NoTokenProvided);
            assert_eq!(e.code(), -1);
            assert_eq!(e.message(), "No token provided");
        }
        Ok(_) => panic!("an empty request must be refused"),
    }
}

#[test]
fn request_answers_every_token_in_order() {
    let c = checker();
    let (setup, settings) = token_tax_setup(&c);
    assert_eq!(setup.accounts.len(), 2);
    assert_eq!(settings.caller, c.controller);
    assert_eq!(settings.gas_limit, 7_000_000);
    assert_eq!(settings.gas_price, U256::from_u64(100_000_000_000));

    let t1 = addr(TOKEN);
    let t2 = addr("0x1151CB3d861920e07a38e03eEAd12C32178567F6");
    let t3 = addr("0x72e4f9F808C49A2a61dE9C5896298920Dc4EEEa9");
    let t4 = addr("0xaC1419Ee74F203C6b9DAa3635ad7169b7ebb5C1A");
    let mut q = TokenTaxQuery::new(vec![t1, t2, t3, t4], c.address).unwrap();

    // token 1: pair found, tax 5%
    match q.next_step() {
        TaxStep::CallPair(call) => {
            let expected = TaxInfo::new(t1).pair_call();
            assert_eq!(call.to, expected.to);
            assert_eq!(call.data, expected.data);
        }
        other => panic!("unexpected {:?}", other),
    }
    q.record_outcome(CallOutcome::Success(word_of_address(&addr(PAIR))));
    match q.next_step() {
        TaxStep::CallTax(writes, call) => {
            assert_eq!(writes.storage.len(), 100);
            assert_eq!(call.to, c.address);
            assert_eq!(call.data, TaxInfo::new(t1).encode_call(addr(PAIR)));
        }
        other => panic!("unexpected {:?}", other),
    }
    assert!(!q.accepts_outcome(&CallOutcome::Success(vec![0u8; 32])));
    q.record_outcome(CallOutcome::Success(tax_output(500, 500)));

    // token 2: no pair
    assert!(matches!(q.next_step(), TaxStep::CallPair(_)));
    q.record_outcome(CallOutcome::Success(vec![0u8; 32]));

    // token 3: pair found, tax call halts
    q.record_outcome(CallOutcome::Success(word_of_address(&addr(PAIR))));
    q.record_outcome(CallOutcome::Halt);

    // token 4: pair lookup reverts
    assert!(!q.is_done());
    q.record_outcome(CallOutcome::Revert(vec![0xab]));
    assert!(q.is_done());
    assert!(matches!(q.next_step(), TaxStep::Done));

    let results = q.into_results();
    assert_eq!(results.len(), 4);
    match &results[0] {
        TaxCallResult::Success(info) => {
            assert_eq!(info.token, t1);
            assert_eq!(info.buy, Some(U256::from_u64(5)));
            assert_eq!(info.sell, Some(U256::from_u64(5)));
        }
        other => panic!("unexpected {:?}", other),
    }
    assert!(matches!(&results[1], TaxCallResult::CallError(TaxCallError::PairAddressDoesNotExist(t)) if *t == t2));
    assert!(matches!(&results[2], TaxCallResult::CallError(TaxCallError::CallingTaxError(t, m)) if *t == t3 && m == "0x"));
    assert!(matches!(&results[3], TaxCallResult::CallError(TaxCallError::CallingPairReverts(t, m)) if *t == t4 && m == "0xab"));
}

fn run_single(tokens: Vec<Address>, pair_out: &dyn Fn(&Address) -> CallOutcome, tax_out: &dyn Fn(&Address) -> CallOutcome) -> Vec<TaxCallResult> {
    let mut q = TokenTaxQuery::new(tokens, checker().address).unwrap();
    loop {
        let k = q.results.len();
        match q.next_step() {
            TaxStep::Done => break,
            TaxStep::CallPair(_) => {
                let t = q.tokens[k];
                q.record_outcome(pair_out(&t));
            }
            TaxStep::CallTax(_, _) => {
                let t = q.tokens[k];
                q.record_outcome(tax_out(&t));
            }
        }
    }
    q.into_results()
}

#[test]
fn token_answer_does_not_depend_on_batch() {
    let t1 = addr(TOKEN);
    let t2 = addr("0x72e4f9F808C49A2a61dE9C5896298920Dc4EEEa9");
    let pair_out = |t: &Address| {
        if *t == t1 { CallOutcome::Success(word_of_address(&addr(PAIR))) } else { CallOutcome::Revert(vec![1]) }
    };
    let tax_out = |_t: &Address| CallOutcome::Success(tax_output(300, 1200));
    let alone = run_single(vec![t1], &pair_out, &tax_out);
    let batch = run_single(vec![t2, t1, t1], &pair_out, &tax_out);
    for r in [&batch[1], &batch[2]] {
        match (r, &alone[0]) {
            (TaxCallResult::Success(a), TaxCallResult::Success(b)) => {
                assert_eq!(a.token, b.token);
                assert_eq!(a.buy, b.buy);
                assert_eq!(a.sell, b.sell);
            }
            other => panic!("unexpected {:?}", other),
        }
    }
}

#[test]
fn request_and_get_tax_agree_on_output() {
    let out = tax_output(500, 50);
    let (b, s) = get_tax_result(Ok(out.clone())).unwrap();
    let results = run_single(vec![addr(TOKEN)], &|_t: &Address| CallOutcome::Success(word_of_address(&addr(PAIR))), &|_t: &Address| CallOutcome::Success(out.clone()));
    match &results[0] {
        TaxCallResult::Success(info) => {
            assert_eq!(to_alloy(&b), alloy_primitives::U256::from(500u64));
            assert_eq!(to_alloy(&s), alloy_primitives::U256::from(50u64));
            assert_eq!(info.buy, Some(U256::from_u64(5)));
            assert_eq!(info.sell, None);
        }
        other => panic!("unexpected {:?}", other),
    }
}

#[test]
fn encode_call_decodes_back() {
    let data = TaxInfo::new(addr(TOKEN)).encode_call(addr(PAIR));
    let (p, t, fee) = <(alloy_primitives::Address, alloy_primitives::Address, alloy_primitives::U256)>::abi_decode_params(&data[4..], true).unwrap();
    assert_eq!(p.0 .0, addr(PAIR).bytes);
    assert_eq!(t.0 .0, addr(TOKEN).bytes);
    assert_eq!(fee, alloy_primitives::U256::from(997u64));
}

#[test]
fn fake_approval_twice_is_once() {
    let mut db = StateOverlay::new();
    insert_fake_approval(addr(TOKEN), addr(PAIR), checker().address, &mut db);
    let once: std::collections::HashMap<([u8; 20], [u64; 4]), [u64; 4]> =
        db.storage.iter().map(|w| ((w.account.bytes, w.slot.limbs), w.value.limbs)).collect();
    insert_fake_approval(addr(TOKEN), addr(PAIR), checker().address, &mut db);
    let twice: std::collections::HashMap<([u8; 20], [u64; 4]), [u64; 4]> =
        db.storage.iter().map(|w| ((w.account.bytes, w.slot.limbs), w.value.limbs)).collect();
    assert_eq!(db.storage.len(), 200);
    assert_eq!(once, twice);
    assert_eq!(once.len(), 100);
}
