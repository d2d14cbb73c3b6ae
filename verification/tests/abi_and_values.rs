use alloy_sol_types::SolValue;
use token_tax::abi::{
    decode_address_return, decode_u256_pair_prefix, decode_u256_pair_return, function_selector,
    push_address_word, push_u256_word,
};
use token_tax::hex::prefixed_hex_string;
use token_tax::primitives::{Address, U256};

fn addr(hex: &str) -> Address {
    let s = hex.trim_start_matches("0x");
    let mut bytes = [0u8; 20];
    for i in 0..20 {
        bytes[i] = u8::from_str_radix(&s[2 * i..2 * i + 2], 16).unwrap();
    }
    Address { bytes }
}

fn to_alloy(x: &U256) -> alloy_primitives::U256 {
    alloy_primitives::U256::from_limbs(x.limbs)
}

#[test]
fn get_pair_selector_is_the_known_one() {
    assert_eq!(function_selector("getPair(address,address)"), vec![0xe6, 0xa4, 0x39, 0x05]);
}

#[test]
fn get_tax_selector_is_the_keccak_prefix() {
    let digest = alloy_primitives::keccak256("getTax(address,address,uint256)".as_bytes());
    assert_eq!(function_selector("getTax(address,address,uint256)"), digest[..4].to_vec());
    assert_ne!(function_selector("getTax(address,address,uint256)"), function_selector("getPair(address,address)"));
}

#[test]
fn address_word_matches_alloy_encoding() {
    let a = addr("0x1396D6F2e9056954DFc2775204bB3e2Eb8ab8a5B");
    let mut out = Vec::new();
    push_address_word(&mut out, &a);
    let expected = alloy_primitives::Address::from(a.bytes).abi_encode();
    assert_eq!(out, expected);
    assert_eq!(out.len(), 32);
    assert!(out[..12].iter().all(|b| *b == 0));
}

#[test]
fn u256_word_matches_alloy_encoding() {
    let x = U256 { limbs: [0x0102030405060708, 0x1112131415161718, 0x2122232425262728, 0x3132333435363738] };
    let mut out = Vec::new();
    push_u256_word(&mut out, &x);
    assert_eq!(out, to_alloy(&x).abi_encode());
    assert_eq!(out[0], 0x31);
    assert_eq!(out[31], 0x08);
}

#[test]
fn address_return_roundtrip_and_strictness() {
    let a = addr("0x4305BCC56Bb35FaF3edf13421F8D3167df32faB3");
    let mut word = Vec::new();
    push_address_word(&mut word, &a);
    assert_eq!(decode_address_return(&word), Some(a));
    // same check alloy performs when decoding strictly
    assert!(<(alloy_primitives::Address,)>::abi_decode_params(&word, true).is_ok());
    let mut dirty = word.clone();
    dirty[0] = 1;
    assert_eq!(decode_address_return(&dirty), None);
    assert!(<(alloy_primitives::Address,)>::abi_decode_params(&dirty, true).is_err());
    let mut long = word.clone();
    long.push(0);
    assert_eq!(decode_address_return(&long), None);
    assert_eq!(decode_address_return(&word[..31]), None);
}

#[test]
fn u256_pair_return_strict_and_lenient() {
    let x = U256::from_u64(500);
    let y = U256::from_u128(340282366920938463463374607431768211455);
    let mut data = Vec::new();
    push_u256_word(&mut data, &x);
    push_u256_word(&mut data, &y);
    assert_eq!(decode_u256_pair_return(&data), Some((x, y)));
    let (ax, ay) =
        <(alloy_primitives::U256, alloy_primitives::U256)>::abi_decode_params(&data, true).unwrap();
    assert_eq!((ax, ay), (to_alloy(&x), to_alloy(&y)));
    let mut longer = data.clone();
    longer.extend_from_slice(&[0u8; 32]);
    assert_eq!(decode_u256_pair_return(&longer), None);
    assert_eq!(decode_u256_pair_prefix(&longer), Some((x, y)));
    assert_eq!(decode_u256_pair_prefix(&data[..63]), None);
}

#[test]
fn u256_values_and_order() {
    assert_eq!(U256::from_u64(7).limbs, [7, 0, 0, 0]);
    let big = U256::from_u128(69000000000000000000);
    assert_eq!(to_alloy(&big), alloy_primitives::U256::from(69000000000000000000u128));
    assert_eq!(to_alloy(&U256::max_value()), alloy_primitives::U256::MAX);
    assert!(U256::from_u64(99).lt(&U256::from_u64(100)));
    assert!(!U256::from_u64(100).lt(&U256::from_u64(100)));
    assert!(U256::from_u64(u64::MAX).lt(&U256 { limbs: [0, 1, 0, 0] }));
    assert!(U256 { limbs: [0, 0, 0, 1] }.gt(&U256 { limbs: [u64::MAX, u64::MAX, u64::MAX, 0] }));
    assert!(!U256::zero().gt(&U256::zero()));
}

#[test]
fn address_order_and_zero() {
    let weth = addr("0xc02aaa39b223fe8d0a0e5c4f27ead9083c756cc2");
    let low = addr("0x1396D6F2e9056954DFc2775204bB3e2Eb8ab8a5B");
    assert!(low.lt(&weth));
    assert!(!weth.lt(&low));
    assert!(!weth.lt(&weth));
    assert!(weth.same_as(&weth));
    assert!(!weth.same_as(&low));
    assert!(Address::zero().is_zero());
    assert!(!low.is_zero());
}

#[test]
fn prefixed_hex_is_lower_case_with_prefix() {
    assert_eq!(prefixed_hex_string(&[]), "0x");
    assert_eq!(prefixed_hex_string(&[0x08, 0xc3, 0x79, 0xa0, 0xff]), "0x08c379a0ff");
    let bytes = alloy_primitives::Bytes::from(vec![0xde, 0xad, 0x00, 0x0f]);
    assert_eq!(prefixed_hex_string(&bytes), bytes.to_string());
}
