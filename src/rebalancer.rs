use vstd::prelude::*;

use crate::engine::{
    allocation_shares, current_shares, allocations_are_valid, count_successes, plan_trades, planned_trades, portfolio_needs_rebalance,
    rebalance_needed, successes, valid_allocations, valid_threshold,
};
use crate::valuation::{checked_total, portfolio_value};
use crate::types::{Address, Allocation, AssetInfo, Error, Portfolio, RebalanceResult, TradeIntent};

verus! {

/// The price assumed for an asset without a quote: one unit, scaled by ten
/// million.
pub const FALLBACK_PRICE: u64 = 10_000_000;

/// The price assumed for XLM without a quote: 0.12, scaled by ten million.
pub const XLM_FALLBACK_PRICE: u64 = 1_200_000;

/// The price assumed for the asset named `symbol` when it has no quote.
pub open spec fn fallback_price(symbol: Seq<char>) -> u64 {
    if symbol == "XLM"@ {
        XLM_FALLBACK_PRICE
    } else {
        FALLBACK_PRICE
    }
}

/// A successful count of trades, held in 32 bits.
pub open spec fn capped_count(n: nat) -> u32 {
    if n <= u32::MAX {
        n as u32
    } else {
        u32::MAX
    }
}

/// The state of the rebalancer: its administrator and oracle, the supported
/// assets, and one portfolio per owner.
pub struct PortfolioRebalancer {
    admin: Option<Address>,
    oracle_address: Option<Address>,
    supported_assets: Vec<AssetInfo>,
    portfolios: Vec<Portfolio>,
    registry: Ghost<Map<Seq<char>, Portfolio>>,
}

impl PortfolioRebalancer {
    /// The portfolios, keyed by their owner's identity.
    pub closed spec fn portfolios_view(&self) -> Map<Seq<char>, Portfolio> {
        self.registry@
    }

    /// Some portfolio has been created.
    pub closed spec fn has_portfolios(&self) -> bool {
        self.portfolios@.len() > 0
    }

    pub closed spec fn admin_view(&self) -> Option<Address> {
        self.admin
    }

    pub closed spec fn oracle_view(&self) -> Option<Address> {
        self.oracle_address
    }

    pub closed spec fn assets_view(&self) -> Seq<AssetInfo> {
        self.supported_assets@
    }

    /// Each owner holds at most one portfolio, every portfolio's weights add
    /// up to one hundred percent, and the keyed view matches the stored list.
    pub closed spec fn wf(&self) -> bool {
        &&& forall|i: int, j: int|
            0 <= i < j < self.portfolios@.len() ==> #[trigger] self.portfolios@[i].owner@
                != #[trigger] self.portfolios@[j].owner@
        &&& forall|i: int|
            0 <= i < self.portfolios@.len() ==> {
                &&& self.registry@.contains_key(#[trigger] self.portfolios@[i].owner@)
                &&& self.registry@[self.portfolios@[i].owner@] == self.portfolios@[i]
                &&& valid_allocations(self.portfolios@[i].allocations@)
            }
        &&& forall|k: Seq<char>|
            #[trigger] self.registry@.contains_key(k) ==> exists|i: int|
                0 <= i < self.portfolios@.len() && #[trigger] self.portfolios@[i].owner@ == k
    }

    /// Every portfolio in the registry has valid weights.
    pub proof fn lemma_stored_valid(&self, k: Seq<char>)
        requires
            self.wf(),
            self.portfolios_view().contains_key(k),
        ensures
            valid_allocations(self.portfolios_view()[k].allocations@),
    {
        let i = choose|i: int| 0 <= i < self.portfolios@.len() && #[trigger] self.portfolios@[i].owner@ == k;
        assert(self.portfolios@[i].owner@ == k);
    }

    /// The portfolio of `owner`: `NotInitialized` before any portfolio
    /// exists, `Unauthorized` when `owner` has none.
    pub open spec fn portfolio_of(&self, owner: Seq<char>) -> Result<Portfolio, Error> {
        if !self.has_portfolios() {
            Err(Error::NotInitialized)
        } else if !self.portfolios_view().contains_key(owner) {
            Err(Error::Unauthorized)
        } else {
            Ok(self.portfolios_view()[owner])
        }
    }

    /// Whether the portfolio of `owner` needs rebalancing.
    pub open spec fn needs_rebalance_for(
        &self,
        owner: Seq<char>,
        balances: Seq<(Address, u64)>,
        prices: Seq<(Address, u64)>,
    ) -> Result<bool, Error> {
        match self.portfolio_of(owner) {
            Err(e) => Err(e),
            Ok(p) => rebalance_needed(p, balances, prices),
        }
    }

    /// The trades of a rebalance of the portfolio of `owner`; a paused
    /// portfolio is refused as `Unauthorized`.
    pub open spec fn rebalance_plan_for(
        &self,
        owner: Seq<char>,
        balances: Seq<(Address, u64)>,
        prices: Seq<(Address, u64)>,
    ) -> Result<Seq<TradeIntent>, Error> {
        match self.portfolio_of(owner) {
            Err(e) => Err(e),
            Ok(p) => if !p.is_active {
                Err(Error::Unauthorized)
            } else {
                planned_trades(p, balances, prices)
            },
        }
    }

    /// A rebalancer with no administrator, oracle, asset or portfolio.
    pub fn new() -> (r: PortfolioRebalancer)
        ensures
            r.wf(),
            r.admin_view() is None,
            r.oracle_view() is None,
            r.assets_view().len() == 0,
            !r.has_portfolios(),
            r.portfolios_view() == Map::<Seq<char>, Portfolio>::empty(),
    {
        PortfolioRebalancer {
            admin: None,
            oracle_address: None,
            supported_assets: Vec::new(),
            portfolios: Vec::new(),
            registry: Ghost(Map::empty()),
        }
    }

    fn position_of(&self, owner: &Address) -> (r: Option<usize>)
        requires
            self.wf(),
        ensures
            match r {
                Some(i) => i < self.portfolios@.len() && self.portfolios@[i as int].owner@ == owner@
                    && self.portfolios_view().contains_key(owner@)
                    && self.portfolios_view()[owner@] == self.portfolios@[i as int],
                None => !self.portfolios_view().contains_key(owner@),
            },
    {
        let mut i: usize = 0;
        while i < self.portfolios.len()
            invariant
                self.wf(),
                i <= self.portfolios@.len(),
                forall|j: int| 0 <= j < i ==> #[trigger] self.portfolios@[j].owner@ != owner@,
            decreases self.portfolios.len() - i,
        {
            if self.portfolios[i].owner.same_as(owner) {
                assert(self.registry@.contains_key(self.portfolios@[i as int].owner@));
                return Some(i);
            }
            i = i + 1;
        }
        proof {
            if self.registry@.contains_key(owner@) {
                let j = choose|j: int| 0 <= j < self.portfolios@.len() && #[trigger] self.portfolios@[j].owner@ == owner@;
                assert(self.portfolios@[j].owner@ != owner@);
            }
        }
        None
    }

    /// Puts `p` back at `i`, where the portfolio of the same owner was taken out of `prev`.
    fn reinsert(&mut self, i: usize, p: Portfolio, Ghost(prev): Ghost<PortfolioRebalancer>)
        requires
            prev.wf(),
            i < prev.portfolios@.len(),
            old(self).portfolios@ == prev.portfolios@.remove(i as int),
            old(self).registry@ == prev.registry@,
            old(self).admin == prev.admin,
            old(self).oracle_address == prev.oracle_address,
            old(self).supported_assets@ == prev.supported_assets@,
            p.owner@ == prev.portfolios@[i as int].owner@,
            valid_allocations(p.allocations@),
        ensures
            final(self).wf(),
            final(self).has_portfolios(),
            final(self).portfolios_view() == prev.portfolios_view().insert(p.owner@, p),
            final(self).admin_view() == prev.admin_view(),
            final(self).oracle_view() == prev.oracle_view(),
            final(self).assets_view() == prev.assets_view(),
    {
        let ghost gp = p;
        let ghost k = p.owner@;
        let ghost old_ps = prev.portfolios@;
        let ghost old_reg = prev.registry@;
        self.portfolios.insert(i, p);
        self.registry = Ghost(self.registry@.insert(k, gp));
        proof {
            assert(self.portfolios@ =~= old_ps.update(i as int, gp));
            assert forall|kk: Seq<char>| #[trigger] self.registry@.contains_key(kk) implies exists|j: int|
                0 <= j < self.portfolios@.len() && #[trigger] self.portfolios@[j].owner@ == kk by {
                if kk == k {
                    assert(self.portfolios@[i as int].owner@ == kk);
                } else {
                    let j = choose|j: int| 0 <= j < old_ps.len() && #[trigger] old_ps[j].owner@ == kk;
                    assert(self.portfolios@[j].owner@ == kk);
                }
            }
            assert forall|a: int, b: int| 0 <= a < b < self.portfolios@.len() implies #[trigger] self.portfolios@[a].owner@
                != #[trigger] self.portfolios@[b].owner@ by {
                assert(old_ps[a].owner@ != old_ps[b].owner@);
            }
            assert forall|j: int| 0 <= j < self.portfolios@.len() implies {
                &&& self.registry@.contains_key(#[trigger] self.portfolios@[j].owner@)
                &&& self.registry@[self.portfolios@[j].owner@] == self.portfolios@[j]
                &&& valid_allocations(self.portfolios@[j].allocations@)
            } by {
                if j != i {
                    assert(old_ps[j].owner@ != old_ps[i as int].owner@);
                    assert(old_reg.contains_key(old_ps[j].owner@));
                }
            }
        }
    }

    /// Stores `p` as its owner's portfolio, in place of any earlier one.
    fn store(&mut self, p: Portfolio)
        requires
            old(self).wf(),
            valid_allocations(p.allocations@),
        ensures
            final(self).wf(),
            final(self).has_portfolios(),
            final(self).portfolios_view() == old(self).portfolios_view().insert(p.owner@, p),
            final(self).admin_view() == old(self).admin_view(),
            final(self).oracle_view() == old(self).oracle_view(),
            final(self).assets_view() == old(self).assets_view(),
    {
        let ghost prev = *self;
        match self.position_of(&p.owner) {
            Some(i) => {
                let _earlier = self.portfolios.remove(i);
                self.reinsert(i, p, Ghost(prev));
            },
            None => {
                let ghost gp = p;
                let ghost k = p.owner@;
                let ghost old_ps = self.portfolios@;
                let ghost old_reg = self.registry@;
                self.portfolios.push(p);
                self.registry = Ghost(self.registry@.insert(k, gp));
                proof {
                    let n = old_ps.len() as int;
                    assert forall|kk: Seq<char>| #[trigger] self.registry@.contains_key(kk) implies exists|j: int|
                        0 <= j < self.portfolios@.len() && #[trigger] self.portfolios@[j].owner@ == kk by {
                        if kk == k {
                            assert(self.portfolios@[n].owner@ == kk);
                        } else {
                            let j = choose|j: int| 0 <= j < old_ps.len() && #[trigger] old_ps[j].owner@ == kk;
                            assert(self.portfolios@[j].owner@ == kk);
                        }
                    }
                    assert forall|a: int, b: int| 0 <= a < b < self.portfolios@.len() implies #[trigger] self.portfolios@[a].owner@
                        != #[trigger] self.portfolios@[b].owner@ by {
                        if b == n {
                            assert(old_reg.contains_key(old_ps[a].owner@));
                        } else {
                            assert(old_ps[a].owner@ != old_ps[b].owner@);
                        }
                    }
                    assert forall|j: int| 0 <= j < self.portfolios@.len() implies {
                        &&& self.registry@.contains_key(#[trigger] self.portfolios@[j].owner@)
                        &&& self.registry@[self.portfolios@[j].owner@] == self.portfolios@[j]
                        &&& valid_allocations(self.portfolios@[j].allocations@)
                    } by {
                        if j != n {
                            assert(old_reg.contains_key(old_ps[j].owner@));
                        }
                    }
                }
            },
        }
    }

    /// Finds the portfolio of `owner`, as `portfolio_of` says.
    fn locate(&self, owner: &Address) -> (r: Result<usize, Error>)
        requires
            self.wf(),
        ensures
            match (r, self.portfolio_of(owner@)) {
                (Ok(i), Ok(p)) => i < self.portfolios@.len() && self.portfolios@[i as int] == p
                    && p.owner@ == owner@,
                (Err(e), Err(f)) => e == f,
                _ => false,
            },
    {
        if self.portfolios.len() == 0 {
            return Err(Error::NotInitialized);
        }
        match self.position_of(owner) {
            Some(i) => Ok(i),
            None => Err(Error::Unauthorized),
        }
    }

    /// Sets up the administrator and the oracle, once.
    pub fn initialize(&mut self, admin: Address, oracle_address: Address) -> (r: Result<(), Error>)
        requires
            old(self).wf(),
        ensures
            final(self).wf(),
            old(self).admin_view() is Some ==> r == Err::<(), Error>(Error::AlreadyInitialized)
                && *final(self) == *old(self),
            old(self).admin_view() is None ==> {
                &&& r == Ok::<(), Error>(())
                &&& final(self).admin_view() == Some(admin)
                &&& final(self).oracle_view() == Some(oracle_address)
                &&& final(self).assets_view() == old(self).assets_view()
                &&& final(self).portfolios_view() == old(self).portfolios_view()
                &&& final(self).has_portfolios() == old(self).has_portfolios()
            },
    {
        if self.admin.is_some() {
            return Err(Error::AlreadyInitialized);
        }
        let ghost prev = *self;
        self.admin = Some(admin);
        self.oracle_address = Some(oracle_address);
        assert(self.portfolios@ == prev.portfolios@ && self.registry@ == prev.registry@);
        Ok(())
    }

    /// The administrator, once set up.
    pub fn admin(&self) -> (r: Option<Address>)
        ensures
            r == self.admin_view(),
    {
        match &self.admin {
            Some(a) => Some(a.duplicate()),
            None => None,
        }
    }

    /// Registers a supported asset.
    pub fn add_supported_asset(&mut self, asset_address: Address, symbol: String, decimals: u32) -> (r:
        Result<(), Error>)
        requires
            old(self).wf(),
        ensures
            final(self).wf(),
            old(self).admin_view() is None ==> r == Err::<(), Error>(Error::NotInitialized)
                && *final(self) == *old(self),
            old(self).admin_view() is Some ==> {
                &&& r == Ok::<(), Error>(())
                &&& final(self).assets_view() == old(self).assets_view().push(
                    AssetInfo { address: asset_address, symbol, decimals },
                )
                &&& final(self).admin_view() == old(self).admin_view()
                &&& final(self).oracle_view() == old(self).oracle_view()
                &&& final(self).portfolios_view() == old(self).portfolios_view()
                &&& final(self).has_portfolios() == old(self).has_portfolios()
            },
    {
        if self.admin.is_none() {
            return Err(Error::NotInitialized);
        }
        let ghost prev = *self;
        self.supported_assets.push(AssetInfo { address: asset_address, symbol, decimals });
        assert(self.portfolios@ == prev.portfolios@ && self.registry@ == prev.registry@);
        Ok(())
    }

    /// The supported assets, in the order they were registered.
    pub fn supported_assets(&self) -> (r: &Vec<AssetInfo>)
        ensures
            r@ == self.assets_view(),
    {
        &self.supported_assets
    }

    /// Creates the portfolio of `owner`, in place of any earlier one, active
    /// and last rebalanced at `now`.
    pub fn create_portfolio(
        &mut self,
        owner: Address,
        allocations: Vec<Allocation>,
        drift_threshold: u32,
        now: u64,
    ) -> (r: Result<(), Error>)
        requires
            old(self).wf(),
        ensures
            final(self).wf(),
            !valid_threshold(drift_threshold) ==> r == Err::<(), Error>(Error::InvalidDriftThreshold)
                && *final(self) == *old(self),
            valid_threshold(drift_threshold) && !valid_allocations(allocations@) ==> r == Err::<
                (),
                Error,
            >(Error::InvalidAllocation) && *final(self) == *old(self),
            valid_threshold(drift_threshold) && valid_allocations(allocations@) ==> {
                &&& r == Ok::<(), Error>(())
                &&& final(self).has_portfolios()
                &&& final(self).portfolios_view() == old(self).portfolios_view().insert(
                    owner@,
                    Portfolio {
                        owner,
                        allocations,
                        drift_threshold,
                        last_rebalance: now,
                        is_active: true,
                    },
                )
                &&& final(self).admin_view() == old(self).admin_view()
                &&& final(self).oracle_view() == old(self).oracle_view()
                &&& final(self).assets_view() == old(self).assets_view()
            },
    {
        if drift_threshold == 0 || drift_threshold > 5000 {
            return Err(Error::InvalidDriftThreshold);
        }
        if !allocations_are_valid(&allocations) {
            return Err(Error::InvalidAllocation);
        }
        let portfolio = Portfolio {
            owner,
            allocations,
            drift_threshold,
            last_rebalance: now,
            is_active: true,
        };
        self.store(portfolio);
        Ok(())
    }

    /// Replaces the target weights of the portfolio of `owner`.
    pub fn update_allocations(&mut self, owner: &Address, new_allocations: Vec<Allocation>) -> (r:
        Result<(), Error>)
        requires
            old(self).wf(),
        ensures
            final(self).wf(),
            match old(self).portfolio_of(owner@) {
                Err(e) => r == Err::<(), Error>(e) && *final(self) == *old(self),
                Ok(p) => if !valid_allocations(new_allocations@) {
                    r == Err::<(), Error>(Error::InvalidAllocation) && *final(self) == *old(self)
                } else {
                    &&& r == Ok::<(), Error>(())
                    &&& final(self).has_portfolios()
                    &&& final(self).portfolios_view() == old(self).portfolios_view().insert(
                        owner@,
                        Portfolio { allocations: new_allocations, ..p },
                    )
                    &&& final(self).admin_view() == old(self).admin_view()
                    &&& final(self).oracle_view() == old(self).oracle_view()
                    &&& final(self).assets_view() == old(self).assets_view()
                },
            },
    {
        let i = self.locate(owner)?;
        if !allocations_are_valid(&new_allocations) {
            return Err(Error::InvalidAllocation);
        }
        let ghost prev = *self;
        let mut p = self.portfolios.remove(i);
        p.allocations = new_allocations;
        self.reinsert(i, p, Ghost(prev));
        Ok(())
    }

    /// Pauses or resumes the portfolio of `owner`.
    pub fn toggle_portfolio_status(&mut self, owner: &Address, is_active: bool) -> (r: Result<
        (),
        Error,
    >)
        requires
            old(self).wf(),
        ensures
            final(self).wf(),
            match old(self).portfolio_of(owner@) {
                Err(e) => r == Err::<(), Error>(e) && *final(self) == *old(self),
                Ok(p) => {
                    &&& r == Ok::<(), Error>(())
                    &&& final(self).has_portfolios()
                    &&& final(self).portfolios_view() == old(self).portfolios_view().insert(
                        owner@,
                        Portfolio { is_active, ..p },
                    )
                    &&& final(self).admin_view() == old(self).admin_view()
                    &&& final(self).oracle_view() == old(self).oracle_view()
                    &&& final(self).assets_view() == old(self).assets_view()
                },
            },
    {
        let i = self.locate(owner)?;
        let ghost prev = *self;
        let mut p = self.portfolios.remove(i);
        p.is_active = is_active;
        self.reinsert(i, p, Ghost(prev));
        Ok(())
    }

    /// The portfolio of `owner`.
    pub fn get_portfolio(&self, owner: &Address) -> (r: Result<&Portfolio, Error>)
        requires
            self.wf(),
        ensures
            match (r, self.portfolio_of(owner@)) {
                (Ok(q), Ok(p)) => *q == p,
                (Err(e), Err(f)) => e == f,
                _ => false,
            },
    {
        let i = self.locate(owner)?;
        Ok(&self.portfolios[i])
    }

    /// Whether the portfolio of `owner` has drifted beyond its threshold at
    /// the given balances and prices.
    pub fn needs_rebalancing(
        &self,
        owner: &Address,
        balances: &Vec<(Address, u64)>,
        prices: &Vec<(Address, u64)>,
    ) -> (r: Result<bool, Error>)
        requires
            self.wf(),
        ensures
            r == self.needs_rebalance_for(owner@, balances@, prices@),
    {
        let i = self.locate(owner)?;
        portfolio_needs_rebalance(&self.portfolios[i], balances, prices)
    }

    /// The trades that bring the portfolio of `owner` back to its targets.
    pub fn plan_rebalance(
        &self,
        owner: &Address,
        balances: &Vec<(Address, u64)>,
        prices: &Vec<(Address, u64)>,
    ) -> (r: Result<Vec<TradeIntent>, Error>)
        requires
            self.wf(),
        ensures
            match (r, self.rebalance_plan_for(owner@, balances@, prices@)) {
                (Ok(v), Ok(s)) => v@ == s,
                (Err(e), Err(f)) => e == f,
                _ => false,
            },
    {
        let i = self.locate(owner)?;
        let p = &self.portfolios[i];
        if !p.is_active {
            return Err(Error::Unauthorized);
        }
        proof {
            self.lemma_stored_valid(owner@);
        }
        plan_trades(p, balances, prices)
    }

    /// Records a rebalance of the portfolio of `owner` at `now`. `outcomes`
    /// holds what the venue reported for each planned trade, in order; the
    /// result counts those that were done. The timestamp is set however many
    /// trades failed.
    pub fn rebalance_portfolio(
        &mut self,
        owner: &Address,
        balances: &Vec<(Address, u64)>,
        prices: &Vec<(Address, u64)>,
        outcomes: &Vec<bool>,
        now: u64,
    ) -> (r: Result<RebalanceResult, Error>)
        requires
            old(self).wf(),
        ensures
            final(self).wf(),
            match old(self).rebalance_plan_for(owner@, balances@, prices@) {
                Err(e) => r == Err::<RebalanceResult, Error>(e) && *final(self) == *old(self),
                Ok(trades) => {
                    &&& r == Ok::<RebalanceResult, Error>(
                        RebalanceResult {
                            trades_executed: capped_count(successes(outcomes@, trades.len() as int)),
                            total_gas_used: 0,
                            timestamp: now,
                        },
                    )
                    &&& final(self).has_portfolios()
                    &&& final(self).portfolios_view() == old(self).portfolios_view().insert(
                        owner@,
                        Portfolio { last_rebalance: now, ..old(self).portfolios_view()[owner@] },
                    )
                    &&& final(self).admin_view() == old(self).admin_view()
                    &&& final(self).oracle_view() == old(self).oracle_view()
                    &&& final(self).assets_view() == old(self).assets_view()
                },
            },
    {
        let trades = self.plan_rebalance(owner, balances, prices)?;
        let trades_executed = count_successes(outcomes, trades.len());
        let i = self.locate(owner)?;
        let ghost prev = *self;
        let mut p = self.portfolios.remove(i);
        p.last_rebalance = now;
        self.reinsert(i, p, Ghost(prev));
        Ok(RebalanceResult { trades_executed, total_gas_used: 0, timestamp: now })
    }

    /// Current share, in basis points, of each allocated asset of the
    /// portfolio of `owner`, in the allocations' order.
    pub fn get_portfolio_status(
        &self,
        owner: &Address,
        balances: &Vec<(Address, u64)>,
        prices: &Vec<(Address, u64)>,
    ) -> (r: Result<Vec<(Address, u64)>, Error>)
        requires
            self.wf(),
        ensures
            match (r, self.portfolio_of(owner@)) {
                (Ok(v), Ok(p)) => checked_total(balances@, prices@) is Ok && v@ == current_shares(
                    p.allocations@,
                    balances@,
                    prices@,
                    checked_total(balances@, prices@)->Ok_0 as nat,
                ),
                (Err(e), Ok(p)) => checked_total(balances@, prices@) == Err::<u128, Error>(e),
                (Err(e), Err(f)) => e == f,
                _ => false,
            },
    {
        let i = self.locate(owner)?;
        let total = portfolio_value(balances, prices)?;
        Ok(allocation_shares(&self.portfolios[i].allocations, balances, prices, total))
    }

    /// Points the rebalancer at another price oracle.
    pub fn update_oracle_address(&mut self, new_oracle_address: Address) -> (r: Result<(), Error>)
        requires
            old(self).wf(),
        ensures
            final(self).wf(),
            old(self).admin_view() is None ==> r == Err::<(), Error>(Error::NotInitialized)
                && *final(self) == *old(self),
            old(self).admin_view() is Some ==> {
                &&& r == Ok::<(), Error>(())
                &&& final(self).oracle_view() == Some(new_oracle_address)
                &&& final(self).admin_view() == old(self).admin_view()
                &&& final(self).assets_view() == old(self).assets_view()
                &&& final(self).portfolios_view() == old(self).portfolios_view()
                &&& final(self).has_portfolios() == old(self).has_portfolios()
            },
    {
        if self.admin.is_none() {
            return Err(Error::NotInitialized);
        }
        let ghost prev = *self;
        self.oracle_address = Some(new_oracle_address);
        assert(self.portfolios@ == prev.portfolios@ && self.registry@ == prev.registry@);
        Ok(())
    }

    /// The price oracle in use.
    pub fn get_oracle_address(&self) -> (r: Result<Address, Error>)
        ensures
            match self.oracle_view() {
                Some(a) => r == Ok::<Address, Error>(a),
                None => r == Err::<Address, Error>(Error::NotInitialized),
            },
    {
        match &self.oracle_address {
            Some(a) => Ok(a.duplicate()),
            None => Err(Error::NotInitialized),
        }
    }

    /// The price of the asset named `asset_symbol`.
    pub fn get_asset_price(asset_symbol: &String) -> (r: Result<u64, Error>)
        ensures
            r == Ok::<u64, Error>(fallback_price(asset_symbol@)),
    {
        Ok(Self::get_fallback_price(asset_symbol))
    }

    /// The price assumed for an asset that has no quote.
    pub fn get_fallback_price(symbol: &String) -> (r: u64)
        ensures
            r == fallback_price(symbol@),
    {
        let xlm = "XLM".to_owned();
        if *symbol == xlm {
            XLM_FALLBACK_PRICE
        } else {
            FALLBACK_PRICE
        }
    }

    /// A price entry for each allocated asset, in the allocations' order;
    /// `OracleError` while no price oracle is configured.
    pub fn get_asset_prices(&self, allocations: &Vec<Allocation>) -> (r: Result<
        Vec<(Address, u64)>,
        Error,
    >)
        ensures
            self.oracle_view() is None ==> r == Err::<Vec<(Address, u64)>, Error>(Error::OracleError),
            self.oracle_view() is Some ==> r is Ok && r->Ok_0@.len() == allocations@.len() && forall|
                i: int,
            |
                0 <= i < allocations@.len() ==> #[trigger] r->Ok_0@[i] == (
                    allocations@[i].asset.address,
                    fallback_price(allocations@[i].asset.symbol@),
                ),
    {
        if self.oracle_address.is_none() {
            return Err(Error::OracleError);
        }
        let mut out: Vec<(Address, u64)> = Vec::new();
        let mut i: usize = 0;
        while i < allocations.len()
            invariant
                i <= allocations@.len(),
                out@.len() == i,
                forall|j: int|
                    0 <= j < i ==> #[trigger] out@[j] == (
                        allocations@[j].asset.address,
                        fallback_price(allocations@[j].asset.symbol@),
                    ),
            decreases allocations.len() - i,
        {
            let a = &allocations[i];
            out.push((a.asset.address.duplicate(), Self::get_fallback_price(&a.asset.symbol)));
            i = i + 1;
        }
        Ok(out)
    }

    /// A registry that holds a portfolio has had one created.
    pub proof fn lemma_held_means_created(&self, owner: Seq<char>)
        requires
            self.wf(),
            self.portfolios_view().contains_key(owner),
        ensures
            self.has_portfolios(),
    {
        let i = choose|i: int| 0 <= i < self.portfolios@.len() && #[trigger] self.portfolios@[i].owner@ == owner;
        assert(self.portfolios@[i].owner@ == owner);
    }

    /// Rebuilds a rebalancer from stored parts. Portfolios whose weights do
    /// not add up to one hundred percent are dropped; of two portfolios of
    /// one owner, the later one is kept.
    pub fn from_parts(
        admin: Option<Address>,
        oracle_address: Option<Address>,
        supported_assets: Vec<AssetInfo>,
        portfolios: Vec<Portfolio>,
    ) -> (r: PortfolioRebalancer)
        ensures
            r.wf(),
            r.admin_view() == admin,
            r.oracle_view() == oracle_address,
            r.assets_view() == supported_assets@,
            r.portfolios_view() == restored(portfolios@),
            r.has_portfolios() == any_valid(portfolios@),
    {
        let mut state = PortfolioRebalancer {
            admin,
            oracle_address,
            supported_assets,
            portfolios: Vec::new(),
            registry: Ghost(Map::empty()),
        };
        let ghost all = portfolios@;
        let mut rest = portfolios;
        let mut i: usize = 0;
        let n = rest.len();
        assert(rest@ =~= all.subrange(0, n as int));
        while rest.len() > 0
            invariant
                state.wf(),
                state.admin_view() == admin,
                state.oracle_view() == oracle_address,
                state.assets_view() == supported_assets@,
                n == all.len(),
                i + rest@.len() == n,
                rest@ =~= all.subrange(i as int, n as int),
                state.portfolios_view() == restored(all.subrange(0, i as int)),
                state.has_portfolios() == any_valid(all.subrange(0, i as int)),
            decreases rest.len(),
        {
            let p = rest.remove(0);
            proof {
                assert(p == all[i as int]);
                assert(all.subrange(0, i + 1).drop_last() =~= all.subrange(0, i as int));
                assert(rest@ =~= all.subrange(i + 1, n as int));
                if !valid_allocations(p.allocations@) {
                    assert(any_valid(all.subrange(0, i + 1)) == any_valid(all.subrange(0, i as int))) by {
                        if any_valid(all.subrange(0, i + 1)) {
                            let j = choose|j: int| 0 <= j < i + 1 && #[trigger] valid_allocations(all.subrange(0, i + 1)[j].allocations@);
                            assert(all.subrange(0, i as int)[j] == all.subrange(0, i + 1)[j]);
                        }
                    }
                } else {
                    assert(valid_allocations(all.subrange(0, i + 1)[i as int].allocations@));
                }
            }
            if allocations_are_valid(&p.allocations) {
                state.store(p);
            }
            i = i + 1;
        }
        assert(all.subrange(0, n as int) =~= all);
        state
    }

    /// Takes the rebalancer apart into the pieces `from_parts` rebuilds it from.
    pub fn into_parts(self) -> (r: (Option<Address>, Option<Address>, Vec<AssetInfo>, Vec<Portfolio>))
        requires
            self.wf(),
        ensures
            r.0 == self.admin_view(),
            r.1 == self.oracle_view(),
            r.2@ == self.assets_view(),
            r.3@.len() > 0 <==> self.has_portfolios(),
            forall|i: int|
                0 <= i < r.3@.len() ==> {
                    &&& self.portfolios_view().contains_key(#[trigger] r.3@[i].owner@)
                    &&& self.portfolios_view()[r.3@[i].owner@] == r.3@[i]
                },
            forall|k: Seq<char>|
                #[trigger] self.portfolios_view().contains_key(k) ==> exists|i: int|
                    0 <= i < r.3@.len() && #[trigger] r.3@[i].owner@ == k,
    {
        (self.admin, self.oracle_address, self.supported_assets, self.portfolios)
    }
}

/// The portfolios that `from_parts` keeps, keyed by owner.
pub open spec fn restored(portfolios: Seq<Portfolio>) -> Map<Seq<char>, Portfolio>
    decreases portfolios.len(),
{
    if portfolios.len() == 0 {
        Map::empty()
    } else {
        let earlier = restored(portfolios.drop_last());
        let p = portfolios.last();
        if valid_allocations(p.allocations@) {
            earlier.insert(p.owner@, p)
        } else {
            earlier
        }
    }
}

/// Some portfolio has weights that add up to one hundred percent.
pub open spec fn any_valid(portfolios: Seq<Portfolio>) -> bool {
    exists|i: int| 0 <= i < portfolios.len() && #[trigger] valid_allocations(portfolios[i].allocations@)
}

} // verus!
