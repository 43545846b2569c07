use vstd::prelude::*;

verus! {

/// Failures reported by the rebalancer.
#[derive(Clone, Copy, Debug, PartialEq, Eq, PartialOrd, Ord, Structural)]
pub enum Error {
    NotInitialized,
    AlreadyInitialized,
    Unauthorized,
    InvalidAllocation,
    InsufficientBalance,
    InvalidAsset,
    SwapFailed,
    InvalidDriftThreshold,
    NoRebalanceNeeded,
    OracleError,
}

} // verus!

verus! {

/// An account or contract identity, held as its textual strkey form.
#[derive(Clone, Debug)]
pub struct Address {
    pub id: String,
}

impl View for Address {
    type V = Seq<char>;

    open spec fn view(&self) -> Seq<char> {
        self.id@
    }
}

impl Address {
    pub fn new(id: String) -> (r: Address)
        ensures
            r.id == id,
    {
        Address { id }
    }

    /// A copy of this identity.
    pub fn duplicate(&self) -> (r: Address)
        ensures
            r == *self,
    {
        Address { id: self.id.clone() }
    }

    /// Two identities are the same when their texts are equal.
    pub fn same_as(&self, other: &Address) -> (r: bool)
        ensures
            r == (self@ == other@),
    {
        self.id == other.id
    }
}

/// A registered asset: identity, display symbol and decimal precision.
#[derive(Clone, Debug)]
pub struct AssetInfo {
    pub address: Address,
    pub symbol: String,
    pub decimals: u32,
}

impl AssetInfo {
    pub fn duplicate(&self) -> (r: AssetInfo)
        ensures
            r == *self,
    {
        AssetInfo {
            address: self.address.duplicate(),
            symbol: self.symbol.clone(),
            decimals: self.decimals,
        }
    }
}

/// A target weight, in basis points, for one asset of a portfolio.
#[derive(Clone, Debug)]
pub struct Allocation {
    pub asset: AssetInfo,
    pub target_percent: u32,
}

/// A target-weighted portfolio of one owner.
#[derive(Clone, Debug)]
pub struct Portfolio {
    pub owner: Address,
    pub allocations: Vec<Allocation>,
    pub drift_threshold: u32,
    pub last_rebalance: u64,
    pub is_active: bool,
}

/// The outcome of one rebalance.
#[derive(Clone, Copy, Debug, PartialEq, Eq, Structural)]
pub struct RebalanceResult {
    pub trades_executed: u32,
    pub total_gas_used: u64,
    pub timestamp: u64,
}

/// A quoted price of an asset, scaled by ten million.
#[derive(Clone, Debug)]
pub struct PriceInfo {
    pub asset: AssetInfo,
    pub price: u64,
    pub timestamp: u64,
}

/// How a price oracle names an asset.
#[derive(Clone, Debug)]
pub enum Asset {
    Stellar(Address),
    Other(String),
}

/// A price record as a price oracle reports it.
#[derive(Clone, Copy, Debug, PartialEq, Eq, Structural)]
pub struct PriceData {
    pub price: u64,
    pub timestamp: u64,
}

/// A trade that brings one asset back to its target value: `amount` is the
/// size of the value change, `is_sell` tells its direction.
#[derive(Clone, Debug)]
pub struct TradeIntent {
    pub asset: Address,
    pub amount: u128,
    pub is_sell: bool,
}

} // verus!
