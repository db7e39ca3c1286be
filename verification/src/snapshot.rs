//! The market snapshot: tokens and liquidity pools at one point in time.

use vstd::prelude::*;

verus! {

/// A token that pools trade.
#[derive(Debug, Clone)]
pub struct Token {
    /// Short name; two chains may use the same one.
    pub symbol: String,
    /// Number of decimal places of one unit.
    pub decimals: u32,
    /// On-chain address.
    pub address: String,
}

/// A liquidity pair on one exchange.
#[allow(non_snake_case)]
#[derive(Debug, Clone)]
pub struct Pool {
    /// Name of the exchange.
    pub dexName: String,
    /// Chain that the pool lives on.
    pub chain: String,
    /// Address of the first token.
    pub token0: String,
    /// Address of the second token.
    pub token1: String,
    /// Amount held of the first token.
    pub reserve0: u64,
    /// Amount held of the second token.
    pub reserve1: u64,
    /// Fee, in ten-thousandths of the traded amount.
    pub fee: u64,
}

/// Tokens and pools, in the order in which they were listed.
#[derive(Debug)]
pub struct DexData {
    pub tokens: Vec<Token>,
    pub pools: Vec<Pool>,
}

impl Pool {
    /// Both reserves together.
    pub open spec fn liquidity(&self) -> int {
        self.reserve0 + self.reserve1
    }

    /// Both reserves together; the sum of two `u64` always fits.
    pub fn total_reserve(&self) -> (total: u128)
        ensures
            total == self.liquidity(),
    {
        self.reserve0 as u128 + self.reserve1 as u128
    }
}

} // verus!
