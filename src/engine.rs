use vstd::prelude::*;

use crate::types::{Address, Allocation, Error, Portfolio, TradeIntent};
use crate::valuation::{
    FULL_BPS, checked_total, current_percent, holding_value, holding_value_of,
    lemma_holding_within_total, percent_of, portfolio_value, total_value,
};

verus! {

/// Sum of the target weights of `allocations`.
pub open spec fn sum_bps(allocations: Seq<Allocation>) -> nat
    decreases allocations.len(),
{
    if allocations.len() == 0 {
        0
    } else {
        sum_bps(allocations.drop_last()) + allocations.last().target_percent as nat
    }
}

/// No asset appears in two allocations.
pub open spec fn distinct_assets(allocations: Seq<Allocation>) -> bool {
    forall|i: int, j: int|
        0 <= i < j < allocations.len() ==> #[trigger] allocations[i].asset.address@
            != #[trigger] allocations[j].asset.address@
}

/// Target weights of distinct assets that add up to exactly one hundred percent.
pub open spec fn valid_allocations(allocations: Seq<Allocation>) -> bool {
    sum_bps(allocations) == FULL_BPS && distinct_assets(allocations)
}

/// A drift threshold within one basis point and fifty percent.
pub open spec fn valid_threshold(drift_threshold: u32) -> bool {
    1 <= drift_threshold <= 5000
}

/// No single weight exceeds the sum of all of them.
pub proof fn lemma_weight_within_sum(allocations: Seq<Allocation>, i: int)
    requires
        0 <= i < allocations.len(),
    ensures
        allocations[i].target_percent <= sum_bps(allocations),
    decreases allocations.len(),
{
    if i < allocations.len() - 1 {
        lemma_weight_within_sum(allocations.drop_last(), i);
    }
}

/// Sums of prefixes grow with the prefix.
pub proof fn lemma_prefix_sum_grows(allocations: Seq<Allocation>, i: int)
    requires
        0 <= i <= allocations.len(),
    ensures
        sum_bps(allocations.subrange(0, i)) <= sum_bps(allocations),
    decreases allocations.len() - i,
{
    if i < allocations.len() {
        lemma_prefix_sum_grows(allocations, i + 1);
        assert(allocations.subrange(0, i + 1).drop_last() =~= allocations.subrange(0, i));
    } else {
        assert(allocations.subrange(0, i) =~= allocations);
    }
}

/// Adds up the target weights; `None` when the sum exceeds one hundred percent.
pub fn allocation_sum(allocations: &Vec<Allocation>) -> (r: Option<u32>)
    ensures
        r == (if sum_bps(allocations@) <= FULL_BPS {
            Some(sum_bps(allocations@) as u32)
        } else {
            None::<u32>
        }),
{
    let mut sum: u32 = 0;
    let mut i: usize = 0;
    while i < allocations.len()
        invariant
            i <= allocations.len(),
            sum == sum_bps(allocations@.subrange(0, i as int)),
            sum <= FULL_BPS,
        decreases allocations.len() - i,
    {
        proof {
            assert(allocations@.subrange(0, i + 1).drop_last() =~= allocations@.subrange(
                0,
                i as int,
            ));
        }
        let p = allocations[i].target_percent;
        if p > 10000 - sum {
            proof {
                lemma_prefix_sum_grows(allocations@, i + 1);
            }
            return None;
        }
        sum = sum + p;
        i = i + 1;
    }
    proof {
        assert(allocations@.subrange(0, i as int) =~= allocations@);
    }
    Some(sum)
}

/// Tells whether no asset appears in two allocations.
pub fn assets_are_distinct(allocations: &Vec<Allocation>) -> (r: bool)
    ensures
        r == distinct_assets(allocations@),
{
    let mut i: usize = 0;
    while i < allocations.len()
        invariant
            i <= allocations@.len(),
            forall|a: int, b: int|
                0 <= a < b < i ==> #[trigger] allocations@[a].asset.address@
                    != #[trigger] allocations@[b].asset.address@,
        decreases allocations.len() - i,
    {
        let mut j: usize = 0;
        while j < i
            invariant
                i < allocations@.len(),
                j <= i,
                forall|a: int| 0 <= a < j ==> #[trigger] allocations@[a].asset.address@
                    != allocations@[i as int].asset.address@,
            decreases i - j,
        {
            if allocations[j].asset.address.same_as(&allocations[i].asset.address) {
                return false;
            }
            j = j + 1;
        }
        i = i + 1;
    }
    true
}

/// Tells whether the target weights are of distinct assets and add up to
/// exactly one hundred percent.
pub fn allocations_are_valid(allocations: &Vec<Allocation>) -> (r: bool)
    ensures
        r == valid_allocations(allocations@),
{
    match allocation_sum(allocations) {
        Some(s) => s == 10000 && assets_are_distinct(allocations),
        None => false,
    }
}

/// Distance, in basis points, between the current and the target share of an allocation.
pub open spec fn drift_of(
    a: Allocation,
    balances: Seq<(Address, u64)>,
    prices: Seq<(Address, u64)>,
    total: nat,
) -> nat {
    let pct = percent_of(holding_value(balances, prices, a.asset.address@), total);
    if pct > a.target_percent {
        (pct - a.target_percent) as nat
    } else {
        (a.target_percent - pct) as nat
    }
}

/// Some allocation has drifted further than the threshold.
pub open spec fn has_drifted(
    allocations: Seq<Allocation>,
    drift_threshold: u32,
    balances: Seq<(Address, u64)>,
    prices: Seq<(Address, u64)>,
    total: nat,
) -> bool {
    exists|i: int|
        0 <= i < allocations.len() && #[trigger] drift_of(allocations[i], balances, prices, total)
            > drift_threshold
}

/// Whether a portfolio must be traded back to its targets: never when it is
/// paused; otherwise an error when no share can be taken of its value, else
/// whether some allocation drifted beyond the threshold.
pub open spec fn rebalance_needed(
    portfolio: Portfolio,
    balances: Seq<(Address, u64)>,
    prices: Seq<(Address, u64)>,
) -> Result<bool, Error> {
    if !portfolio.is_active {
        Ok(false)
    } else {
        match checked_total(balances, prices) {
            Err(e) => Err(e),
            Ok(t) => Ok(
                has_drifted(portfolio.allocations@, portfolio.drift_threshold, balances, prices, t as nat),
            ),
        }
    }
}

/// Tells whether some allocation drifted beyond `drift_threshold`.
pub fn exceeds_drift(
    allocations: &Vec<Allocation>,
    drift_threshold: u32,
    balances: &Vec<(Address, u64)>,
    prices: &Vec<(Address, u64)>,
    total: u128,
) -> (r: bool)
    requires
        total > 0,
        total == total_value(balances@, prices@),
    ensures
        r == has_drifted(allocations@, drift_threshold, balances@, prices@, total as nat),
{
    let mut i: usize = 0;
    while i < allocations.len()
        invariant
            i <= allocations.len(),
            total > 0,
            total == total_value(balances@, prices@),
            forall|j: int|
                0 <= j < i ==> #[trigger] drift_of(allocations@[j], balances@, prices@, total as nat)
                    <= drift_threshold,
        decreases allocations.len() - i,
    {
        let a = &allocations[i];
        let pct = current_percent(balances, prices, &a.asset.address, total);
        let target = a.target_percent as u64;
        let drift = if pct > target {
            pct - target
        } else {
            target - pct
        };
        assert(drift == drift_of(allocations@[i as int], balances@, prices@, total as nat));
        if drift > drift_threshold as u64 {
            return true;
        }
        i = i + 1;
    }
    false
}

/// Whether `portfolio` needs rebalancing at the given balances and prices.
pub fn portfolio_needs_rebalance(
    portfolio: &Portfolio,
    balances: &Vec<(Address, u64)>,
    prices: &Vec<(Address, u64)>,
) -> (r: Result<bool, Error>)
    ensures
        r == rebalance_needed(*portfolio, balances@, prices@),
{
    if !portfolio.is_active {
        return Ok(false);
    }
    let total = portfolio_value(balances, prices)?;
    Ok(exceeds_drift(&portfolio.allocations, portfolio.drift_threshold, balances, prices, total))
}

/// The value that `bps` basis points of `total` come to, rounded down.
pub open spec fn target_value(total: nat, bps: u32) -> nat {
    total * (bps as nat) / (FULL_BPS as nat)
}

/// The trade that brings one allocation to its target value, if it is off.
pub open spec fn trade_for(
    a: Allocation,
    balances: Seq<(Address, u64)>,
    prices: Seq<(Address, u64)>,
    total: nat,
) -> Option<TradeIntent> {
    let current = holding_value(balances, prices, a.asset.address@);
    let target = target_value(total, a.target_percent);
    if current == target {
        None
    } else if current > target {
        Some(TradeIntent { asset: a.asset.address, amount: (current - target) as u128, is_sell: true })
    } else {
        Some(TradeIntent { asset: a.asset.address, amount: (target - current) as u128, is_sell: false })
    }
}

/// The trades for a sequence of allocations, in the allocations' order.
pub open spec fn trades_for(
    allocations: Seq<Allocation>,
    balances: Seq<(Address, u64)>,
    prices: Seq<(Address, u64)>,
    total: nat,
) -> Seq<TradeIntent>
    decreases allocations.len(),
{
    if allocations.len() == 0 {
        Seq::empty()
    } else {
        let before = trades_for(allocations.drop_last(), balances, prices, total);
        match trade_for(allocations.last(), balances, prices, total) {
            Some(t) => before.push(t),
            None => before,
        }
    }
}

/// The trades that bring a portfolio back to its targets: the valuation's
/// error, or `NoRebalanceNeeded` when no allocation drifted beyond the
/// threshold, else one trade per allocation that is off its target.
pub open spec fn planned_trades(
    portfolio: Portfolio,
    balances: Seq<(Address, u64)>,
    prices: Seq<(Address, u64)>,
) -> Result<Seq<TradeIntent>, Error> {
    match checked_total(balances, prices) {
        Err(e) => Err(e),
        Ok(t) => if has_drifted(
            portfolio.allocations@,
            portfolio.drift_threshold,
            balances,
            prices,
            t as nat,
        ) {
            Ok(trades_for(portfolio.allocations@, balances, prices, t as nat))
        } else {
            Err(Error::NoRebalanceNeeded)
        },
    }
}

/// `bps` basis points of `total`, rounded down.
pub fn share_of_total(total: u128, bps: u32) -> (r: u128)
    requires
        bps <= FULL_BPS,
    ensures
        r == target_value(total as nat, bps),
        r <= total,
{
    let q = total / FULL_BPS;
    let rem = total % FULL_BPS;
    proof {
        let b = bps as int;
        assert(q * b <= q * 10000) by (nonlinear_arith)
            requires
                b <= 10000,
                q >= 0,
        ;
        assert(total == q * 10000 + rem);
        assert(rem * b / 10000 <= rem) by (nonlinear_arith)
            requires
                b <= 10000,
                rem >= 0,
        ;
        assert((total as int) * b == rem * b + (q * b) * 10000) by (nonlinear_arith)
            requires
                total == q * 10000 + rem,
        ;
        vstd::arithmetic::div_mod::lemma_hoist_over_denominator(rem * b, q * b, 10000);
        assert(rem * b <= 9999 * 10000) by (nonlinear_arith)
            requires
                b <= 10000,
                0 <= rem < 10000,
        ;
    }
    q * (bps as u128) + rem * (bps as u128) / FULL_BPS
}

/// The trades that bring each allocation to `target_percent` of `total`,
/// in the allocations' order; none for an allocation already on target.
pub fn plan_for_total(
    allocations: &Vec<Allocation>,
    balances: &Vec<(Address, u64)>,
    prices: &Vec<(Address, u64)>,
    total: u128,
) -> (r: Vec<TradeIntent>)
    requires
        total == total_value(balances@, prices@),
        forall|i: int| 0 <= i < allocations@.len() ==> #[trigger] allocations@[i].target_percent <= FULL_BPS,
    ensures
        r@ == trades_for(allocations@, balances@, prices@, total as nat),
{
    let mut out: Vec<TradeIntent> = Vec::new();
    let mut i: usize = 0;
    while i < allocations.len()
        invariant
            i <= allocations.len(),
            total == total_value(balances@, prices@),
            forall|j: int| 0 <= j < allocations@.len() ==> #[trigger] allocations@[j].target_percent <= FULL_BPS,
            out@ == trades_for(allocations@.subrange(0, i as int), balances@, prices@, total as nat),
        decreases allocations.len() - i,
    {
        let a = &allocations[i];
        proof {
            let pre = allocations@.subrange(0, i + 1);
            assert(pre.drop_last() =~= allocations@.subrange(0, i as int));
            assert(pre.last() == allocations@[i as int]);
            lemma_holding_within_total(balances@, prices@, a.asset.address@);
        }
        let current = holding_value_of(balances, prices, &a.asset.address);
        let target = share_of_total(total, a.target_percent);
        if current > target {
            out.push(TradeIntent { asset: a.asset.address.duplicate(), amount: current - target, is_sell: true });
        } else if current < target {
            out.push(TradeIntent { asset: a.asset.address.duplicate(), amount: target - current, is_sell: false });
        }
        i = i + 1;
    }
    proof {
        assert(allocations@.subrange(0, i as int) =~= allocations@);
    }
    out
}

/// Plans the trades that bring `portfolio` back to its targets. Only a
/// portfolio that has drifted beyond its threshold is planned for.
pub fn plan_trades(
    portfolio: &Portfolio,
    balances: &Vec<(Address, u64)>,
    prices: &Vec<(Address, u64)>,
) -> (r: Result<Vec<TradeIntent>, Error>)
    requires
        valid_allocations(portfolio.allocations@),
    ensures
        match (r, planned_trades(*portfolio, balances@, prices@)) {
            (Ok(v), Ok(s)) => v@ == s,
            (Err(e), Err(f)) => e == f,
            _ => false,
        },
{
    let total = portfolio_value(balances, prices)?;
    if !exceeds_drift(&portfolio.allocations, portfolio.drift_threshold, balances, prices, total) {
        return Err(Error::NoRebalanceNeeded);
    }
    proof {
        assert forall|i: int| 0 <= i < portfolio.allocations@.len() implies #[trigger] portfolio.allocations@[i].target_percent <= FULL_BPS by {
            lemma_weight_within_sum(portfolio.allocations@, i);
        }
    }
    Ok(plan_for_total(&portfolio.allocations, balances, prices, total))
}

/// Number of `true` among the first `n` outcomes.
pub open spec fn successes(outcomes: Seq<bool>, n: int) -> nat
    decreases n,
{
    if n <= 0 || outcomes.len() == 0 {
        0
    } else if n > outcomes.len() {
        successes(outcomes, outcomes.len() as int)
    } else {
        successes(outcomes, n - 1) + if outcomes[n - 1] { 1nat } else { 0nat }
    }
}

/// Counts the trades that the venue reported as done, of the first `n`
/// outcomes; the count stops at `u32::MAX`.
pub fn count_successes(outcomes: &Vec<bool>, n: usize) -> (r: u32)
    ensures
        r == (if successes(outcomes@, n as int) <= u32::MAX {
            successes(outcomes@, n as int)
        } else {
            u32::MAX as nat
        }),
{
    let end = if n < outcomes.len() { n } else { outcomes.len() };
    let mut count: u32 = 0;
    let mut i: usize = 0;
    while i < end
        invariant
            i <= end,
            end <= outcomes.len(),
            end == n || end == outcomes.len(),
            count == (if successes(outcomes@, i as int) <= u32::MAX {
                successes(outcomes@, i as int)
            } else {
                u32::MAX as nat
            }),
        decreases end - i,
    {
        if outcomes[i] {
            count = count.saturating_add(1);
        }
        i = i + 1;
    }
    count
}

/// Each allocated asset with its current share of `total`, in basis points.
pub open spec fn current_shares(
    allocations: Seq<Allocation>,
    balances: Seq<(Address, u64)>,
    prices: Seq<(Address, u64)>,
    total: nat,
) -> Seq<(Address, u64)> {
    allocations.map_values(
        |a: Allocation|
            (a.asset.address, percent_of(holding_value(balances, prices, a.asset.address@), total) as u64),
    )
}

/// Lists the current share of each allocated asset, in the allocations' order.
pub fn allocation_shares(
    allocations: &Vec<Allocation>,
    balances: &Vec<(Address, u64)>,
    prices: &Vec<(Address, u64)>,
    total: u128,
) -> (r: Vec<(Address, u64)>)
    requires
        total > 0,
        total == total_value(balances@, prices@),
    ensures
        r@ == current_shares(allocations@, balances@, prices@, total as nat),
{
    let mut out: Vec<(Address, u64)> = Vec::new();
    let mut i: usize = 0;
    while i < allocations.len()
        invariant
            i <= allocations@.len(),
            total > 0,
            total == total_value(balances@, prices@),
            out@ =~= current_shares(allocations@.subrange(0, i as int), balances@, prices@, total as nat),
        decreases allocations.len() - i,
    {
        let a = &allocations[i];
        let pct = current_percent(balances, prices, &a.asset.address, total);
        out.push((a.asset.address.duplicate(), pct));
        i = i + 1;
        assert(out@ =~= current_shares(allocations@.subrange(0, i as int), balances@, prices@, total as nat));
    }
    assert(allocations@.subrange(0, i as int) =~= allocations@);
    out
}

} // verus!
