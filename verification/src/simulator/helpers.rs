//! Storage-slot arithmetic shared by the simulations.

use vstd::prelude::*;

use crate::abi::u256_word;
use crate::primitives::{Address, U256};
use crate::utils::nested_mapping_slot;

verus! {

/// The storage slot of `[key][key_after]` in a Solidity mapping of mappings
/// kept at `slot`.
pub fn map_location(slot: U256, key: Address, key_after: Address) -> (r: U256)
    ensures
        u256_word(r) == nested_mapping_slot(u256_word(slot), key@, key_after@),
{
    crate::utils::map_location(slot, key, key_after)
}

} // verus!
