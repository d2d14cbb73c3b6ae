//! Buy and sell taxes of ERC-20 tokens traded against WETH on UniswapV2,
//! measured by simulating a tax-checker contract.
//!
//! The library decides what to simulate and what each simulated outcome
//! means; running the EVM against chain state is left to its caller.

pub mod abi;
pub mod hex;
pub mod primitives;
pub mod simulator;
pub mod token_tax;
pub mod utils;

use vstd::prelude::*;

verus! {

/// The state of the `ethExt` RPC extension: the chain-state provider it reads.
pub struct EthExt<Provider> {
    pub provider: Provider,
}

} // verus!
