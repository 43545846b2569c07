use portfolio_rebalancer::engine::{plan_trades, share_of_total};
use portfolio_rebalancer::rebalancer::{PortfolioRebalancer, FALLBACK_PRICE};
use portfolio_rebalancer::types::{Address, Allocation, AssetInfo, Error, Portfolio};
use portfolio_rebalancer::valuation::{
    asset_value, calculate_total_value, current_percent, portfolio_value,
};

fn addr(s: &str) -> Address {
    Address::new(String::from(s))
}

fn allocation(asset: &str, symbol: &str, bps: u32) -> Allocation {
    Allocation {
        asset: AssetInfo { address: addr(asset), symbol: String::from(symbol), decimals: 7 },
        target_percent: bps,
    }
}

fn entries(list: &[(&str, u64)]) -> Vec<(Address, u64)> {
    list.iter().map(|(a, v)| (addr(a), *v)).collect()
}

fn half_half(state: &mut PortfolioRebalancer, owner: &str, threshold: u32) {
    let allocs = vec![allocation("A", "AAA", 5000), allocation("B", "BBB", 5000)];
    state.create_portfolio(addr(owner), allocs, threshold, 100).unwrap();
}

#[test]
fn test_initialize_contract() {
    let mut state = PortfolioRebalancer::new();
    let admin = addr("ADMIN");
    let oracle_address = addr("ORACLE");
    let result = state.initialize(admin, oracle_address.clone());
    assert!(result.is_ok());
    let stored_oracle = state.get_oracle_address();
    assert!(stored_oracle.is_ok());
    assert_eq!(stored_oracle.unwrap().id, oracle_address.id);
}

#[test]
fn test_create_portfolio() {
    let mut state = PortfolioRebalancer::new();
    state.initialize(addr("ADMIN"), addr("ORACLE")).unwrap();
    state.add_supported_asset(addr("ASSET"), String::from("XLM"), 7).unwrap();
    let allocations = vec![allocation("ASSET", "XLM", 10000)];
    let result = state.create_portfolio(addr("USER"), allocations, 500, 0);
    assert!(result.is_ok());
    let portfolio = state.get_portfolio(&addr("USER"));
    assert!(portfolio.is_ok());
    assert_eq!(portfolio.unwrap().drift_threshold, 500);
}

#[test]
fn initialize_twice_fails() {
    let mut state = PortfolioRebalancer::new();
    state.initialize(addr("ADMIN"), addr("ORACLE")).unwrap();
    assert_eq!(state.initialize(addr("X"), addr("Y")), Err(Error::AlreadyInitialized));
    assert_eq!(state.admin().unwrap().id, "ADMIN");
}

#[test]
fn admin_operations_need_setup() {
    let mut state = PortfolioRebalancer::new();
    assert_eq!(state.add_supported_asset(addr("A"), String::from("A"), 7), Err(Error::NotInitialized));
    assert_eq!(state.update_oracle_address(addr("O")), Err(Error::NotInitialized));
    assert_eq!(state.get_oracle_address().unwrap_err(), Error::NotInitialized);
    state.initialize(addr("ADMIN"), addr("ORACLE")).unwrap();
    state.update_oracle_address(addr("ORACLE2")).unwrap();
    assert_eq!(state.get_oracle_address().unwrap().id, "ORACLE2");
    state.add_supported_asset(addr("A"), String::from("AAA"), 7).unwrap();
    assert_eq!(state.supported_assets().len(), 1);
    assert_eq!(state.supported_assets()[0].symbol, "AAA");
}

#[test]
fn creation_checks_allocation_sum() {
    let mut state = PortfolioRebalancer::new();
    let short = vec![allocation("A", "A", 5000), allocation("B", "B", 4999)];
    assert_eq!(state.create_portfolio(addr("U"), short, 100, 0), Err(Error::InvalidAllocation));
    let over = vec![allocation("A", "A", 5000), allocation("B", "B", 5001)];
    assert_eq!(state.create_portfolio(addr("U"), over, 100, 0), Err(Error::InvalidAllocation));
    let huge = vec![allocation("A", "A", u32::MAX), allocation("B", "B", 10001)];
    assert_eq!(state.create_portfolio(addr("U"), huge, 100, 0), Err(Error::InvalidAllocation));
    assert_eq!(state.create_portfolio(addr("U"), vec![], 100, 0), Err(Error::InvalidAllocation));
    let exact = vec![allocation("A", "A", 2500), allocation("B", "B", 7500)];
    assert_eq!(state.create_portfolio(addr("U"), exact, 100, 0), Ok(()));
    let with_zero = vec![allocation("A", "A", 10000), allocation("B", "B", 0)];
    assert_eq!(state.create_portfolio(addr("V"), with_zero, 100, 0), Ok(()));
}

#[test]
fn creation_checks_threshold() {
    let mut state = PortfolioRebalancer::new();
    let allocs = || vec![allocation("A", "A", 10000)];
    assert_eq!(state.create_portfolio(addr("U"), allocs(), 0, 0), Err(Error::InvalidDriftThreshold));
    assert_eq!(state.create_portfolio(addr("U"), allocs(), 5001, 0), Err(Error::InvalidDriftThreshold));
    assert_eq!(state.create_portfolio(addr("U"), allocs(), 1, 0), Ok(()));
    assert_eq!(state.create_portfolio(addr("U"), allocs(), 5000, 0), Ok(()));
    // the threshold is checked before the weights
    let bad = vec![allocation("A", "A", 1)];
    assert_eq!(state.create_portfolio(addr("U"), bad, 0, 0), Err(Error::InvalidDriftThreshold));
}

#[test]
fn creating_again_overwrites() {
    let mut state = PortfolioRebalancer::new();
    half_half(&mut state, "U", 100);
    state.create_portfolio(addr("U"), vec![allocation("C", "C", 10000)], 300, 9).unwrap();
    let p: &Portfolio = state.get_portfolio(&addr("U")).unwrap();
    assert_eq!(p.drift_threshold, 300);
    assert_eq!(p.allocations.len(), 1);
    assert_eq!(p.last_rebalance, 9);
    assert!(p.is_active);
}

#[test]
fn lookups_before_and_without_portfolio() {
    let mut state = PortfolioRebalancer::new();
    let none: Vec<(Address, u64)> = vec![];
    assert_eq!(state.get_portfolio(&addr("U")).unwrap_err(), Error::NotInitialized);
    assert_eq!(state.needs_rebalancing(&addr("U"), &none, &none), Err(Error::NotInitialized));
    assert_eq!(state.toggle_portfolio_status(&addr("U"), false), Err(Error::NotInitialized));
    half_half(&mut state, "U", 100);
    assert_eq!(state.get_portfolio(&addr("W")).unwrap_err(), Error::Unauthorized);
    assert_eq!(state.needs_rebalancing(&addr("W"), &none, &none), Err(Error::Unauthorized));
    assert_eq!(
        state.update_allocations(&addr("W"), vec![allocation("A", "A", 10000)]),
        Err(Error::Unauthorized)
    );
}

#[test]
fn update_allocations_keeps_threshold_and_flag() {
    let mut state = PortfolioRebalancer::new();
    half_half(&mut state, "U", 250);
    state.toggle_portfolio_status(&addr("U"), false).unwrap();
    assert_eq!(
        state.update_allocations(&addr("U"), vec![allocation("A", "A", 9000)]),
        Err(Error::InvalidAllocation)
    );
    state.update_allocations(&addr("U"), vec![allocation("C", "C", 10000)]).unwrap();
    let p = state.get_portfolio(&addr("U")).unwrap();
    assert_eq!(p.allocations.len(), 1);
    assert_eq!(p.allocations[0].asset.address.id, "C");
    assert_eq!(p.drift_threshold, 250);
    assert!(!p.is_active);
}

#[test]
fn full_drift_needs_rebalancing() {
    let mut state = PortfolioRebalancer::new();
    half_half(&mut state, "U", 100);
    let balances = entries(&[("A", 1000), ("B", 0)]);
    let prices = entries(&[("A", 10_000_000), ("B", 10_000_000)]);
    assert_eq!(state.needs_rebalancing(&addr("U"), &balances, &prices), Ok(true));
    let status = state.get_portfolio_status(&addr("U"), &balances, &prices).unwrap();
    assert_eq!(status.len(), 2);
    assert_eq!(status[0].0.id, "A");
    assert_eq!(status[0].1, 10000);
    assert_eq!(status[1].1, 0);
}

#[test]
fn on_target_needs_nothing() {
    let mut state = PortfolioRebalancer::new();
    half_half(&mut state, "U", 100);
    let balances = entries(&[("A", 500), ("B", 500)]);
    let prices = entries(&[("A", 10_000_000), ("B", 10_000_000)]);
    assert_eq!(state.needs_rebalancing(&addr("U"), &balances, &prices), Ok(false));
    assert_eq!(state.plan_rebalance(&addr("U"), &balances, &prices).unwrap_err(), Error::NoRebalanceNeeded);
    assert_eq!(
        state.rebalance_portfolio(&addr("U"), &balances, &prices, &vec![], 77),
        Err(Error::NoRebalanceNeeded)
    );
    assert_eq!(state.get_portfolio(&addr("U")).unwrap().last_rebalance, 100);
}

#[test]
fn drift_at_threshold_is_tolerated() {
    let mut state = PortfolioRebalancer::new();
    half_half(&mut state, "U", 100);
    // A holds 51%: drift of exactly 100 bps
    let balances = entries(&[("A", 510), ("B", 490)]);
    let prices = entries(&[("A", 10_000_000), ("B", 10_000_000)]);
    assert_eq!(state.needs_rebalancing(&addr("U"), &balances, &prices), Ok(false));
    let balances = entries(&[("A", 511), ("B", 489)]);
    assert_eq!(state.needs_rebalancing(&addr("U"), &balances, &prices), Ok(true));
}

#[test]
fn rebalance_sets_timestamp_whatever_the_venue_did() {
    let mut state = PortfolioRebalancer::new();
    half_half(&mut state, "U", 100);
    let balances = entries(&[("A", 1000), ("B", 0)]);
    let prices = entries(&[("A", 10_000_000), ("B", 10_000_000)]);
    let trades = state.plan_rebalance(&addr("U"), &balances, &prices).unwrap();
    assert_eq!(trades.len(), 2);
    let r = state.rebalance_portfolio(&addr("U"), &balances, &prices, &vec![false, false], 555).unwrap();
    assert_eq!(r.trades_executed, 0);
    assert_eq!(r.timestamp, 555);
    assert_eq!(r.total_gas_used, 0);
    assert_eq!(state.get_portfolio(&addr("U")).unwrap().last_rebalance, 555);
    let r = state.rebalance_portfolio(&addr("U"), &balances, &prices, &vec![true, false, true], 600).unwrap();
    assert_eq!(r.trades_executed, 1);
    assert_eq!(state.get_portfolio(&addr("U")).unwrap().last_rebalance, 600);
    let r = state.rebalance_portfolio(&addr("U"), &balances, &prices, &vec![true, true], 700).unwrap();
    assert_eq!(r.trades_executed, 2);
}

#[test]
fn paused_portfolio_never_needs_rebalancing() {
    let mut state = PortfolioRebalancer::new();
    half_half(&mut state, "U", 1);
    let balances = entries(&[("A", 1_000_000_000), ("B", 0)]);
    let prices = entries(&[("A", 10_000_000), ("B", 10_000_000)]);
    assert_eq!(state.needs_rebalancing(&addr("U"), &balances, &prices), Ok(true));
    state.toggle_portfolio_status(&addr("U"), false).unwrap();
    assert_eq!(state.needs_rebalancing(&addr("U"), &balances, &prices), Ok(false));
    let none: Vec<(Address, u64)> = vec![];
    assert_eq!(state.needs_rebalancing(&addr("U"), &none, &none), Ok(false));
    assert_eq!(
        state.rebalance_portfolio(&addr("U"), &balances, &prices, &vec![true], 5),
        Err(Error::Unauthorized)
    );
    state.toggle_portfolio_status(&addr("U"), true).unwrap();
    assert_eq!(state.needs_rebalancing(&addr("U"), &balances, &prices), Ok(true));
}

#[test]
fn valuation_is_repeatable() {
    let balances = entries(&[("A", 123_456), ("B", 7_000_001)]);
    let prices = entries(&[("A", 25_000_000), ("B", 3_333_333)]);
    let first = calculate_total_value(&balances, &prices);
    let second = calculate_total_value(&balances, &prices);
    assert_eq!(first, second);
    let t = portfolio_value(&balances, &prices).unwrap();
    assert_eq!(
        current_percent(&balances, &prices, &addr("A"), t),
        current_percent(&balances, &prices, &addr("A"), t)
    );
}

#[test]
fn zero_total_is_an_error() {
    let mut state = PortfolioRebalancer::new();
    half_half(&mut state, "U", 100);
    let balances = entries(&[("A", 0), ("B", 0)]);
    let prices = entries(&[("A", 10_000_000), ("B", 10_000_000)]);
    assert_eq!(portfolio_value(&balances, &prices), Err(Error::OracleError));
    assert_eq!(state.needs_rebalancing(&addr("U"), &balances, &prices), Err(Error::OracleError));
    assert_eq!(state.get_portfolio_status(&addr("U"), &balances, &prices).unwrap_err(), Error::OracleError);
    assert_eq!(state.plan_rebalance(&addr("U"), &balances, &prices).unwrap_err(), Error::OracleError);
    // missing prices count as zero
    let balances = entries(&[("A", 1000), ("B", 1000)]);
    let none: Vec<(Address, u64)> = vec![];
    assert_eq!(state.needs_rebalancing(&addr("U"), &balances, &none), Err(Error::OracleError));
}

#[test]
fn fixed_point_values() {
    assert_eq!(asset_value(1000, 10_000_000), 1000);
    assert_eq!(asset_value(3, 5_000_000), 1);
    assert_eq!(asset_value(1, 9_999_999), 0);
    assert_eq!(asset_value(u64::MAX, u64::MAX), (u64::MAX as u128 * u64::MAX as u128) / 10_000_000);
    let balances = entries(&[("A", 300), ("B", 100), ("C", 50)]);
    let prices = entries(&[("A", 20_000_000), ("B", 5_000_000)]);
    // C has no price and counts as zero
    assert_eq!(calculate_total_value(&balances, &prices), Some(650));
    assert_eq!(current_percent(&balances, &prices, &addr("A"), 650), 9230);
    assert_eq!(current_percent(&balances, &prices, &addr("B"), 650), 769);
    assert_eq!(current_percent(&balances, &prices, &addr("Z"), 650), 0);
}

#[test]
fn first_entry_wins() {
    let balances = entries(&[("A", 100), ("A", 900)]);
    let prices = entries(&[("A", 10_000_000), ("A", 1)]);
    assert_eq!(calculate_total_value(&balances, &prices), Some(100));
    assert_eq!(current_percent(&balances, &prices, &addr("A"), 100), 10000);
}

#[test]
fn repeated_balance_entry_counts_once() {
    let mut state = PortfolioRebalancer::new();
    state.create_portfolio(addr("U"), vec![allocation("A", "AAA", 10000)], 100, 0).unwrap();
    let balances = entries(&[("A", 1000), ("A", 1000)]);
    let prices = entries(&[("A", 10_000_000)]);
    assert_eq!(calculate_total_value(&balances, &prices), Some(1000));
    assert_eq!(state.needs_rebalancing(&addr("U"), &balances, &prices), Ok(false));
    let status = state.get_portfolio_status(&addr("U"), &balances, &prices).unwrap();
    assert_eq!(status[0].1, 10000);
}

#[test]
fn repeated_allocation_asset_is_refused() {
    let mut state = PortfolioRebalancer::new();
    let twice = vec![allocation("A", "AAA", 5000), allocation("A", "AAA", 5000)];
    assert_eq!(state.create_portfolio(addr("U"), twice, 100, 0), Err(Error::InvalidAllocation));
    half_half(&mut state, "U", 100);
    let twice = vec![allocation("B", "BBB", 4000), allocation("C", "CCC", 2000), allocation("B", "BBB", 4000)];
    assert_eq!(state.update_allocations(&addr("U"), twice), Err(Error::InvalidAllocation));
}

#[test]
fn shares_of_total() {
    assert_eq!(share_of_total(1000, 5000), 500);
    assert_eq!(share_of_total(999, 3333), 332);
    assert_eq!(share_of_total(u128::MAX, 10000), u128::MAX);
    assert_eq!(share_of_total(u128::MAX, 0), 0);
    assert_eq!(share_of_total(u128::MAX, 5000), u128::MAX / 2);
}

#[test]
fn planned_trades_follow_allocation_order() {
    let p = Portfolio {
        owner: addr("U"),
        allocations: vec![
            allocation("A", "A", 2000),
            allocation("B", "B", 3000),
            allocation("C", "C", 5000),
        ],
        drift_threshold: 100,
        last_rebalance: 0,
        is_active: true,
    };
    let balances = entries(&[("A", 600), ("B", 300), ("C", 100)]);
    let prices = entries(&[("A", 10_000_000), ("B", 10_000_000), ("C", 10_000_000)]);
    let trades = plan_trades(&p, &balances, &prices).unwrap();
    assert_eq!(trades.len(), 2);
    assert_eq!(trades[0].asset.id, "A");
    assert_eq!(trades[0].amount, 400);
    assert!(trades[0].is_sell);
    assert_eq!(trades[1].asset.id, "C");
    assert_eq!(trades[1].amount, 400);
    assert!(!trades[1].is_sell);
}

#[test]
fn test_fallback_prices() {
    let xlm_price = PortfolioRebalancer::get_fallback_price(&String::from("XLM"));
    assert_eq!(xlm_price, 1200000);

    let usdc_price = PortfolioRebalancer::get_fallback_price(&String::from("USDC"));
    assert_eq!(usdc_price, 10000000);

    let unknown_price = PortfolioRebalancer::get_fallback_price(&String::from("UNKNOWN"));
    assert_eq!(unknown_price, 10000000);
}

#[test]
fn asset_prices_need_an_oracle() {
    assert_eq!(PortfolioRebalancer::get_asset_price(&String::from("USDC")), Ok(FALLBACK_PRICE));
    assert_eq!(PortfolioRebalancer::get_asset_price(&String::from("XLM")), Ok(1_200_000));
    let allocs = vec![allocation("A", "XLM", 4000), allocation("B", "BBB", 6000)];
    let mut state = PortfolioRebalancer::new();
    assert_eq!(state.get_asset_prices(&allocs).unwrap_err(), Error::OracleError);
    state.initialize(addr("ADMIN"), addr("ORACLE")).unwrap();
    let prices = state.get_asset_prices(&allocs).unwrap();
    assert_eq!(prices.len(), 2);
    assert_eq!(prices[0].0.id, "A");
    assert_eq!(prices[0].1, 1_200_000);
    assert_eq!(prices[1].0.id, "B");
    assert_eq!(prices[1].1, 10_000_000);
}
