# token_tax

Buy and sell taxes of ERC-20 tokens paired with WETH on UniswapV2, measured by
simulating a tax-checker contract on a copy of the chain state. The library
(`src/`, verified with Verus) decides what to simulate and what each outcome
means; `app/` is the reth node and RPC method that run the simulations.

- `primitives`: addresses and 256-bit integers as plain values.
- `hex`: the `0x`-prefixed hex text of bytes.
- `abi`: ABI words, selectors, call data and strict/lenient return decoding.
- `utils`: per-token tax info, the pair lookup, the `getTax` call, the fake
  approval storage writes.
- `simulator`: the simulation environment, the sandbox `getTax` setup and the
  reading of its result.
- `token_tax`: the step-by-step answer to a request for many tokens.
