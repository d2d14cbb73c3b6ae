//! The environment of a simulated transaction and how its outcome is reported.

use vstd::prelude::*;

use crate::primitives::{Address, U256};
use crate::utils::CallOutcome;

verus! {

/// The transaction to simulate.
#[derive(Clone, Debug)]
pub struct TransactInfo {
    pub caller: Address,
    pub to: Address,
    pub value: U256,
    pub data: Vec<u8>,
}

/// Why a simulated transaction gave no output.
#[derive(Clone, Debug)]
pub enum SimulatorErrors {
    /// The EVM refused the transaction; the text describes its error.
    EVMError(String),
    /// The transaction reverted with this output.
    TransactRevert(Vec<u8>),
    /// The transaction halted; the bytes are the text `0x`.
    TransactHalt(Vec<u8>),
}

/// The block and transaction environment of a simulation.
#[derive(Clone, Debug)]
pub struct Simulator {
    pub block_number: U256,
    pub timestamp: U256,
    pub basefee: U256,
    pub coinbase: Address,
    pub gas_limit: u64,
    pub gas_price: U256,
    /// The transaction set with [`Simulator::set_transact_info`], if any.
    pub transact: Option<TransactInfo>,
}

/// The coinbase of simulated blocks.
pub open spec fn simulated_coinbase() -> Seq<u8> {
    seq![
        0xdeu8, 0xca, 0xfc, 0x0f, 0xfe, 0xe1, 0x5b, 0xad, 0, 0, 0, 0, 0, 0, 0, 0, 0, 0, 0, 0,
    ]
}

/// Simulated blocks are credited to 0xdecafc0ffee15bad000000000000000000000000.
pub proof fn lemma_simulated_coinbase()
    ensures
        simulated_coinbase() =~= seq![
            0xdeu8, 0xca, 0xfc, 0x0f, 0xfe, 0xe1, 0x5b, 0xad, 0, 0, 0, 0, 0, 0, 0, 0, 0, 0, 0, 0,
        ],
{
}

impl Simulator {
    /// The environment on top of block `current_block` at time `now` (seconds
    /// since the epoch): base fee 1000000 wei, coinbase
    /// 0xDecafC0FFEe15BAD000000000000000000000000, gas limit 7000000 and gas
    /// price 1 gwei, no transaction yet.
    pub fn new(current_block: u64, now: u64) -> (r: Simulator)
        ensures
            r.block_number@ == current_block,
            r.timestamp@ == now,
            r.basefee@ == 1000000,
            r.coinbase@ == simulated_coinbase(),
            r.gas_limit == 7000000,
            r.gas_price@ == 1000000000,
            r.transact is None,
    {
        let coinbase = Address {
            bytes: [0xde, 0xca, 0xfc, 0x0f, 0xfe, 0xe1, 0x5b, 0xad, 0, 0, 0, 0, 0, 0, 0, 0, 0, 0, 0, 0],
        };
        assert(coinbase@ =~= simulated_coinbase());
        Simulator {
            block_number: U256::from_u64(current_block),
            timestamp: U256::from_u64(now),
            basefee: U256::from_u64(1000000),
            coinbase,
            gas_limit: 7000000,
            gas_price: U256::from_u64(1000000000),
            transact: None,
        }
    }

    /// Sets the transaction to simulate; the block settings stay.
    pub fn set_transact_info(&mut self, transact_info: TransactInfo)
        ensures
            final(self).transact == Some(transact_info),
            final(self).block_number == old(self).block_number,
            final(self).timestamp == old(self).timestamp,
            final(self).basefee == old(self).basefee,
            final(self).coinbase == old(self).coinbase,
            final(self).gas_limit == old(self).gas_limit,
            final(self).gas_price == old(self).gas_price,
    {
        self.transact = Some(transact_info);
    }

    /// The output of a committed transaction, or why there is none: `result`
    /// is what the EVM returned, or the text of its error.
    pub fn execute_commit(result: Result<CallOutcome, String>) -> (r: Result<Vec<u8>, SimulatorErrors>)
        ensures
            match result {
                Ok(CallOutcome::Success(out)) => r == Ok::<Vec<u8>, SimulatorErrors>(out),
                Ok(CallOutcome::Revert(out)) => r matches Err(SimulatorErrors::TransactRevert(o))
                    && o == out,
                Ok(CallOutcome::Halt) => r matches Err(SimulatorErrors::TransactHalt(o)) && o@ == seq![
                    0x30u8,
                    0x78u8,
                ],
                Err(e) => r matches Err(SimulatorErrors::EVMError(m)) && m == e,
            },
    {
        match result {
            Ok(CallOutcome::Success(output)) => Ok(output),
            Ok(CallOutcome::Revert(output)) => Err(SimulatorErrors::TransactRevert(output)),
            Ok(CallOutcome::Halt) => {
                let halt_text: Vec<u8> = vec![0x30, 0x78];
                assert(halt_text@ =~= seq![0x30u8, 0x78u8]);
                Err(SimulatorErrors::TransactHalt(halt_text))
            },
            Err(message) => Err(SimulatorErrors::EVMError(message)),
        }
    }
}

} // verus!
