use vstd::prelude::*;

use crate::engine::{drift_of, planned_trades, rebalance_needed};
use crate::rebalancer::PortfolioRebalancer;
use crate::types::{Address, Error, Portfolio};
use crate::valuation::{checked_total, holding_value, percent_of, total_value};

verus! {

/// A rebalance of an active portfolio that does not need one is refused
/// with `NoRebalanceNeeded`.
pub proof fn lemma_no_drift_refuses_rebalance(
    state: PortfolioRebalancer,
    owner: Seq<char>,
    balances: Seq<(Address, u64)>,
    prices: Seq<(Address, u64)>,
)
    requires
        state.portfolio_of(owner) is Ok,
        state.portfolio_of(owner)->Ok_0.is_active,
        state.needs_rebalance_for(owner, balances, prices) == Ok::<bool, Error>(false),
    ensures
        state.rebalance_plan_for(owner, balances, prices) is Err,
        state.rebalance_plan_for(owner, balances, prices)->Err_0 == Error::NoRebalanceNeeded,
{
}

/// When every allocated asset holds exactly its target share of a nonzero
/// total, the portfolio needs no rebalance and a rebalance is refused with
/// `NoRebalanceNeeded`.
pub proof fn lemma_on_target_needs_nothing(
    state: PortfolioRebalancer,
    owner: Seq<char>,
    balances: Seq<(Address, u64)>,
    prices: Seq<(Address, u64)>,
)
    requires
        state.portfolio_of(owner) is Ok,
        state.portfolio_of(owner)->Ok_0.is_active,
        0 < total_value(balances, prices) <= u128::MAX,
        forall|i: int|
            0 <= i < state.portfolio_of(owner)->Ok_0.allocations@.len() ==> percent_of(
                holding_value(
                    balances,
                    prices,
                    #[trigger] state.portfolio_of(owner)->Ok_0.allocations@[i].asset.address@,
                ),
                total_value(balances, prices),
            ) == state.portfolio_of(owner)->Ok_0.allocations@[i].target_percent,
    ensures
        state.needs_rebalance_for(owner, balances, prices) == Ok::<bool, Error>(false),
        state.rebalance_plan_for(owner, balances, prices) is Err,
        state.rebalance_plan_for(owner, balances, prices)->Err_0 == Error::NoRebalanceNeeded,
{
    let p = state.portfolio_of(owner)->Ok_0;
    let t = total_value(balances, prices);
    assert(checked_total(balances, prices) == Ok::<u128, Error>(t as u128));
    assert forall|i: int| 0 <= i < p.allocations@.len() implies #[trigger] drift_of(
        p.allocations@[i],
        balances,
        prices,
        t,
    ) == 0 by {
        assert(percent_of(holding_value(balances, prices, p.allocations@[i].asset.address@), t)
            == p.allocations@[i].target_percent);
    }
}

/// Once its portfolio is paused, an owner never needs a rebalance, whatever
/// the balances and prices; a rebalance is refused.
pub proof fn lemma_paused_never_rebalances(
    before: PortfolioRebalancer,
    after: PortfolioRebalancer,
    owner: Seq<char>,
    balances: Seq<(Address, u64)>,
    prices: Seq<(Address, u64)>,
)
    requires
        before.portfolio_of(owner) is Ok,
        after.has_portfolios(),
        after.portfolios_view() == before.portfolios_view().insert(
            owner,
            Portfolio { is_active: false, ..before.portfolios_view()[owner] },
        ),
    ensures
        after.needs_rebalance_for(owner, balances, prices) == Ok::<bool, Error>(false),
        after.rebalance_plan_for(owner, balances, prices) is Err,
        after.rebalance_plan_for(owner, balances, prices)->Err_0 == Error::Unauthorized,
{
    assert(after.portfolios_view().contains_key(owner));
}

/// Valuation depends on the balances and prices alone: the same inputs give
/// the same total and the same value of every holding.
pub proof fn lemma_valuation_deterministic(
    balances1: Seq<(Address, u64)>,
    prices1: Seq<(Address, u64)>,
    balances2: Seq<(Address, u64)>,
    prices2: Seq<(Address, u64)>,
)
    requires
        balances1 == balances2,
        prices1 == prices2,
    ensures
        total_value(balances1, prices1) == total_value(balances2, prices2),
        checked_total(balances1, prices1) == checked_total(balances2, prices2),
        forall|asset: Seq<char>|
            #[trigger] holding_value(balances1, prices1, asset) == holding_value(
                balances2,
                prices2,
                asset,
            ),
{
}

/// A zero total value is reported as `OracleError` by valuation, by drift
/// detection on an active portfolio, and by trade planning.
pub proof fn lemma_zero_total_is_reported(
    portfolio: Portfolio,
    balances: Seq<(Address, u64)>,
    prices: Seq<(Address, u64)>,
)
    requires
        total_value(balances, prices) == 0,
    ensures
        checked_total(balances, prices) == Err::<u128, Error>(Error::OracleError),
        portfolio.is_active ==> rebalance_needed(portfolio, balances, prices) == Err::<bool, Error>(
            Error::OracleError,
        ),
        planned_trades(portfolio, balances, prices) is Err,
        planned_trades(portfolio, balances, prices)->Err_0 == Error::OracleError,
{
}

} // verus!
