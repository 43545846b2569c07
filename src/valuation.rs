use vstd::prelude::*;

use crate::types::{Address, Error};

verus! {

/// Fixed-point base of balances and prices: seven decimal places.
pub const SCALE: u128 = 10_000_000;

/// One hundred percent, in basis points.
pub const FULL_BPS: u128 = 10_000;

/// The amount recorded for `asset` in a snapshot of `(asset, amount)` entries:
/// that of its first entry, or zero when it has none.
pub open spec fn amount_in(entries: Seq<(Address, u64)>, asset: Seq<char>) -> u64
    decreases entries.len(),
{
    if entries.len() == 0 {
        0
    } else if entries[0].0@ == asset {
        entries[0].1
    } else {
        amount_in(entries.drop_first(), asset)
    }
}

/// Value of a balance at a price, both scaled by `SCALE`; the fraction is dropped.
pub open spec fn value_of(balance: u64, price: u64) -> nat {
    (balance as nat * price as nat) / (SCALE as nat)
}

/// Value of what the snapshot holds of `asset`.
pub open spec fn holding_value(
    balances: Seq<(Address, u64)>,
    prices: Seq<(Address, u64)>,
    asset: Seq<char>,
) -> nat {
    value_of(amount_in(balances, asset), amount_in(prices, asset))
}

/// Entry `i` is the first entry of its asset in the snapshot.
pub open spec fn is_first(entries: Seq<(Address, u64)>, i: int) -> bool {
    forall|j: int| 0 <= j < i ==> #[trigger] entries[j].0@ != entries[i].0@
}

/// What entry `i` adds to the total: its value at its asset's price when it
/// is the first entry of its asset, nothing for a repeat.
pub open spec fn entry_value(balances: Seq<(Address, u64)>, prices: Seq<(Address, u64)>, i: int) -> nat {
    if is_first(balances, i) {
        value_of(balances[i].1, amount_in(prices, balances[i].0@))
    } else {
        0
    }
}

/// Sum of `entry_value` over the first `n` balance entries.
pub open spec fn prefix_value(balances: Seq<(Address, u64)>, prices: Seq<(Address, u64)>, n: int) -> nat
    decreases n,
{
    if n <= 0 {
        0
    } else {
        prefix_value(balances, prices, n - 1) + entry_value(balances, prices, n - 1)
    }
}

/// Sum, over the assets of the snapshot, of each asset's value at its price;
/// an asset entered more than once counts by its first entry, as a lookup does.
pub open spec fn total_value(balances: Seq<(Address, u64)>, prices: Seq<(Address, u64)>) -> nat {
    prefix_value(balances, prices, balances.len() as int)
}

/// The total value when shares of it can be taken: an error when it is zero,
/// or too large to be held.
pub open spec fn checked_total(
    balances: Seq<(Address, u64)>,
    prices: Seq<(Address, u64)>,
) -> Result<u128, Error> {
    let t = total_value(balances, prices);
    if t == 0 || t > u128::MAX {
        Err(Error::OracleError)
    } else {
        Ok(t as u128)
    }
}

/// Share of `value` in `total`, in basis points, rounded down.
pub open spec fn percent_of(value: nat, total: nat) -> nat
    recommends
        total > 0,
{
    value * (FULL_BPS as nat) / total
}

/// The largest value of one holding.
pub open spec fn max_holding_value() -> nat {
    (u64::MAX as nat * u64::MAX as nat) / (SCALE as nat)
}

pub proof fn lemma_value_bounded(balance: u64, price: u64)
    ensures
        value_of(balance, price) <= max_holding_value(),
        max_holding_value() * (FULL_BPS as nat) <= u128::MAX,
{
    let bp = balance as nat * price as nat;
    let mm = u64::MAX as nat * u64::MAX as nat;
    assert(bp <= mm) by (nonlinear_arith)
        requires
            balance <= u64::MAX,
            price <= u64::MAX,
            bp == balance as nat * price as nat,
            mm == u64::MAX as nat * u64::MAX as nat,
    ;
    vstd::arithmetic::div_mod::lemma_div_is_ordered(bp as int, mm as int, SCALE as int);
    let q = mm / (SCALE as nat);
    vstd::arithmetic::div_mod::lemma_fundamental_div_mod(mm as int, SCALE as int);
    assert(mm <= u128::MAX);
    assert(q * (FULL_BPS as nat) <= q * (SCALE as nat)) by (nonlinear_arith);
    assert(q * (SCALE as nat) <= mm) by (nonlinear_arith)
        requires
            mm as int == (SCALE as int) * (mm as int / SCALE as int) + mm as int % SCALE as int,
            q == mm / (SCALE as nat),
            mm as int % SCALE as int >= 0,
    ;
}

/// Prefix sums grow with the prefix.
pub proof fn lemma_prefix_value_grows(
    balances: Seq<(Address, u64)>,
    prices: Seq<(Address, u64)>,
    m: int,
    n: int,
)
    requires
        m <= n,
    ensures
        prefix_value(balances, prices, m) <= prefix_value(balances, prices, n),
    decreases n - m,
{
    if m < n {
        lemma_prefix_value_grows(balances, prices, m, n - 1);
    }
}

/// The amount looked up for `asset` is that of its first entry, or zero when
/// it has none; returns that entry's index, or -1.
pub proof fn lemma_first_match(entries: Seq<(Address, u64)>, asset: Seq<char>) -> (i: int)
    ensures
        i == -1 ==> amount_in(entries, asset) == 0,
        i != -1 ==> 0 <= i < entries.len() && entries[i].0@ == asset && is_first(entries, i)
            && amount_in(entries, asset) == entries[i].1,
    decreases entries.len(),
{
    if entries.len() == 0 {
        -1
    } else if entries[0].0@ == asset {
        0
    } else {
        let rest = entries.drop_first();
        let k = lemma_first_match(rest, asset);
        if k == -1 {
            -1
        } else {
            assert forall|j: int| 0 <= j < k + 1 implies #[trigger] entries[j].0@ != entries[k + 1].0@ by {
                if j > 0 {
                    assert(rest[j - 1] == entries[j]);
                }
            }
            k + 1
        }
    }
}

/// What one holding is worth never exceeds the total over all entries.
pub proof fn lemma_holding_within_total(
    balances: Seq<(Address, u64)>,
    prices: Seq<(Address, u64)>,
    asset: Seq<char>,
)
    ensures
        holding_value(balances, prices, asset) <= total_value(balances, prices),
{
    let i = lemma_first_match(balances, asset);
    if i != -1 {
        lemma_prefix_value_grows(balances, prices, i + 1, balances.len() as int);
    } else {
        assert(value_of(0, amount_in(prices, asset)) == 0);
    }
}

/// Tells whether entry `i` is the first entry of its asset.
pub fn is_first_entry(entries: &Vec<(Address, u64)>, i: usize) -> (r: bool)
    requires
        i < entries@.len(),
    ensures
        r == is_first(entries@, i as int),
{
    let mut j: usize = 0;
    while j < i
        invariant
            i < entries@.len(),
            j <= i,
            forall|k: int| 0 <= k < j ==> #[trigger] entries@[k].0@ != entries@[i as int].0@,
        decreases i - j,
    {
        if entries[j].0.same_as(&entries[i].0) {
            return false;
        }
        j = j + 1;
    }
    true
}

/// Looks up the amount of `asset` in a snapshot.
pub fn amount_of(entries: &Vec<(Address, u64)>, asset: &Address) -> (r: u64)
    ensures
        r == amount_in(entries@, asset@),
{
    let mut i: usize = 0;
    proof {
        assert(entries@.subrange(0, entries@.len() as int) =~= entries@);
    }
    while i < entries.len()
        invariant
            i <= entries.len(),
            amount_in(entries@, asset@) == amount_in(
                entries@.subrange(i as int, entries@.len() as int),
                asset@,
            ),
        decreases entries.len() - i,
    {
        proof {
            let rest = entries@.subrange(i as int, entries@.len() as int);
            assert(rest.drop_first() =~= entries@.subrange(i + 1, entries@.len() as int));
        }
        if entries[i].0.same_as(asset) {
            return entries[i].1;
        }
        i = i + 1;
    }
    0
}

/// Value of `balance` units at `price`, both scaled by `SCALE`.
pub fn asset_value(balance: u64, price: u64) -> (r: u128)
    ensures
        r == value_of(balance, price),
        r <= max_holding_value(),
{
    proof {
        lemma_value_bounded(balance, price);
        assert(balance as nat * price as nat <= u128::MAX) by (nonlinear_arith)
            requires
                balance <= u64::MAX,
                price <= u64::MAX,
        ;
    }
    (balance as u128) * (price as u128) / SCALE
}

/// Value of what the balances hold of `asset` at the quoted prices.
pub fn holding_value_of(
    balances: &Vec<(Address, u64)>,
    prices: &Vec<(Address, u64)>,
    asset: &Address,
) -> (r: u128)
    ensures
        r == holding_value(balances@, prices@, asset@),
        r <= max_holding_value(),
{
    asset_value(amount_of(balances, asset), amount_of(prices, asset))
}

/// Total value of the snapshot's assets at the quoted prices; a missing
/// price counts as zero and a repeated entry of an asset is skipped. `None`
/// when the total does not fit in 128 bits.
pub fn calculate_total_value(balances: &Vec<(Address, u64)>, prices: &Vec<(Address, u64)>) -> (r:
    Option<u128>)
    ensures
        r == (if total_value(balances@, prices@) <= u128::MAX {
            Some(total_value(balances@, prices@) as u128)
        } else {
            None::<u128>
        }),
{
    let mut total: u128 = 0;
    let mut i: usize = 0;
    while i < balances.len()
        invariant
            i <= balances.len(),
            total == prefix_value(balances@, prices@, i as int),
        decreases balances.len() - i,
    {
        if is_first_entry(balances, i) {
            let price = amount_of(prices, &balances[i].0);
            let v = asset_value(balances[i].1, price);
            match total.checked_add(v) {
                Some(t) => {
                    total = t;
                },
                None => {
                    proof {
                        lemma_prefix_value_grows(balances@, prices@, i + 1, balances@.len() as int);
                    }
                    return None;
                },
            }
        }
        i = i + 1;
    }
    Some(total)
}

/// Total value of the balance entries, as a base for percentages: an
/// `OracleError` when it is zero or does not fit in 128 bits.
pub fn portfolio_value(balances: &Vec<(Address, u64)>, prices: &Vec<(Address, u64)>) -> (r:
    Result<u128, Error>)
    ensures
        r == checked_total(balances@, prices@),
{
    match calculate_total_value(balances, prices) {
        Some(t) => {
            if t == 0 {
                Err(Error::OracleError)
            } else {
                Ok(t)
            }
        },
        None => Err(Error::OracleError),
    }
}

/// Share of the holding of `asset` in `total`, in basis points.
pub fn current_percent(
    balances: &Vec<(Address, u64)>,
    prices: &Vec<(Address, u64)>,
    asset: &Address,
    total: u128,
) -> (r: u64)
    requires
        total > 0,
        total == total_value(balances@, prices@),
    ensures
        r == percent_of(holding_value(balances@, prices@, asset@), total as nat),
        r <= FULL_BPS,
{
    let v = holding_value_of(balances, prices, asset);
    proof {
        lemma_holding_within_total(balances@, prices@, asset@);
        lemma_value_bounded(0, 0);
        assert(v * FULL_BPS <= u128::MAX) by (nonlinear_arith)
            requires
                v <= max_holding_value(),
                max_holding_value() * (FULL_BPS as nat) <= u128::MAX,
        ;
        assert((v as int) * 10000 / (total as int) <= 10000) by (nonlinear_arith)
            requires
                v <= total,
                total > 0,
        ;
    }
    (v * FULL_BPS / total) as u64
}

} // verus!
