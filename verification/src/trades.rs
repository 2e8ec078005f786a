//! Trade history: how the trades of an account split into buys, sells and
//! commission assets, and the report on them.
//!
//! Amounts are decimal texts on the exchange's side and floating point numbers
//! on the caller's side, so the statistics name each trade by its position in
//! the history: the caller adds up the amounts at the positions given here.
use vstd::multiset::*;
use vstd::prelude::*;
use vstd::string::*;

use crate::clock::utc_from_millis;
use crate::report::Report;
use crate::text::{align_right, decimal, same_text};
#[allow(unused_imports)]
use crate::clock::{has_calendar_text, utc_text, LAST_UTC_SECOND, UTC_LAYOUT};
#[allow(unused_imports)]
use crate::text::{decimal_text, right_aligned};

verus! {

/// One trade of the account, as the exchange reports it.
pub struct BinanceTrade {
    pub symbol: String,
    pub id: u64,
    pub order_id: u64,
    pub price: String,
    pub qty: String,
    pub quote_qty: String,
    pub commission: String,
    pub commission_asset: String,
    pub time: u64,
    pub is_buyer: bool,
    pub is_maker: bool,
    pub is_best_match: bool,
}

/// Assets in which a commission counts as money lost: it is deducted from the
/// profit.
pub open spec fn stablecoin(asset: Seq<char>) -> bool {
    asset == "USDT"@ || asset == "USDC"@ || asset == "BUSD"@
}

/// Whether commissions in `asset` are deducted from the profit.
pub fn is_stablecoin(asset: &str) -> (is: bool)
    ensures
        is == stablecoin(asset@),
        is == (asset@ == "USDT"@ || asset@ == "USDC"@ || asset@ == "BUSD"@),
{
    same_text(asset, "USDT") || same_text(asset, "USDC") || same_text(asset, "BUSD")
}

/// The positions, in order, of the trades on one side among the first `n`.
pub open spec fn side_positions(trades: Seq<BinanceTrade>, n: nat, buyer: bool) -> Seq<usize>
    decreases n,
{
    if n == 0 {
        Seq::empty()
    } else {
        let before = side_positions(trades, (n - 1) as nat, buyer);
        if trades[n - 1].is_buyer == buyer {
            before.push((n - 1) as usize)
        } else {
            before
        }
    }
}

/// The assets in which the first `n` trades paid commission, each once, in the
/// order of their first trade.
pub open spec fn commission_assets(trades: Seq<BinanceTrade>, n: nat) -> Seq<Seq<char>>
    decreases n,
{
    if n == 0 {
        Seq::empty()
    } else {
        let before = commission_assets(trades, (n - 1) as nat);
        let asset = trades[n - 1].commission_asset@;
        if before.contains(asset) {
            before
        } else {
            before.push(asset)
        }
    }
}

/// The positions, in order, of those among the first `n` trades that paid their
/// commission in `asset`.
pub open spec fn asset_positions(trades: Seq<BinanceTrade>, n: nat, asset: Seq<char>) -> Seq<usize>
    decreases n,
{
    if n == 0 {
        Seq::empty()
    } else {
        let before = asset_positions(trades, (n - 1) as nat, asset);
        if trades[n - 1].commission_asset@ == asset {
            before.push((n - 1) as usize)
        } else {
            before
        }
    }
}

/// How many of the first `n` trades were made as maker.
pub open spec fn makers(trades: Seq<BinanceTrade>, n: nat) -> nat
    decreases n,
{
    if n == 0 {
        0
    } else {
        makers(trades, (n - 1) as nat) + if trades[n - 1].is_maker {
            1nat
        } else {
            0nat
        }
    }
}

/// `time` is the time of some trade and no trade was made before it.
pub open spec fn is_first_time(trades: Seq<BinanceTrade>, time: u64) -> bool {
    &&& exists|i: int| 0 <= i < trades.len() && trades[i].time == time
    &&& forall|i: int| 0 <= i < trades.len() ==> time <= trades[i].time
}

/// `time` is the time of some trade and no trade was made after it.
pub open spec fn is_last_time(trades: Seq<BinanceTrade>, time: u64) -> bool {
    &&& exists|i: int| 0 <= i < trades.len() && trades[i].time == time
    &&& forall|i: int| 0 <= i < trades.len() ==> trades[i].time <= time
}

/// The trades that paid their commission in one asset.
pub struct CommissionGroup {
    /// The asset.
    pub asset: String,
    /// Whether the commission is deducted from the profit.
    pub stable: bool,
    /// The positions of the trades, in order.
    pub trades: Vec<usize>,
}

/// `groups` are the commission groups of the first `n` trades.
pub open spec fn groups_describe(
    groups: Seq<CommissionGroup>,
    trades: Seq<BinanceTrade>,
    n: nat,
) -> bool {
    let assets = commission_assets(trades, n);
    &&& groups.len() == assets.len()
    &&& forall|k: int|
        0 <= k < groups.len() ==> (#[trigger] groups[k]).asset@ == assets[k] && groups[k].stable
            == stablecoin(assets[k]) && groups[k].trades@ == asset_positions(trades, n, assets[k])
}

/// What a trade history splits into.
pub struct TradeStats {
    /// The trading pair of the first trade.
    pub symbol: String,
    /// The number of trades.
    pub total: usize,
    /// The positions of the buys, in order.
    pub buys: Vec<usize>,
    /// The positions of the sells, in order.
    pub sells: Vec<usize>,
    /// The trades by commission asset, in the order of each asset's first trade.
    pub commissions: Vec<CommissionGroup>,
    /// The number of trades made as maker.
    pub maker_count: usize,
    /// The number of trades made as taker.
    pub taker_count: usize,
    /// The time of the earliest trade, in milliseconds.
    pub first_time: u64,
    /// The time of the latest trade, in milliseconds.
    pub last_time: u64,
}

impl TradeStats {
    /// The statistics are those of `trades`.
    pub open spec fn describes(&self, trades: Seq<BinanceTrade>) -> bool {
        &&& trades.len() > 0
        &&& self.symbol@ == trades[0].symbol@
        &&& self.total == trades.len()
        &&& self.buys@ == side_positions(trades, trades.len(), true)
        &&& self.sells@ == side_positions(trades, trades.len(), false)
        &&& groups_describe(self.commissions@, trades, trades.len())
        &&& self.maker_count == makers(trades, trades.len())
        &&& self.taker_count == trades.len() - makers(trades, trades.len())
        &&& is_first_time(trades, self.first_time)
        &&& is_last_time(trades, self.last_time)
    }
}

/// Puts the trade at position `at` into the group of its commission asset.
fn add_commission(groups: &mut Vec<CommissionGroup>, trades: &[BinanceTrade], at: usize)
    requires
        at < trades@.len(),
        groups_describe(old(groups)@, trades@, at as nat),
    ensures
        groups_describe(final(groups)@, trades@, at as nat + 1),
{
    let asset: &String = &trades[at].commission_asset;
    let ghost assets = commission_assets(trades@, at as nat);
    let ghost start = groups@;
    proof {
        assets_are_distinct(trades@, at as nat);
    }
    let mut k: usize = 0;
    while k < groups.len()
        invariant
            k <= groups@.len(),
            groups@ == start,
            groups_describe(start, trades@, at as nat),
            at < trades@.len(),
            asset@ == trades@[at as int].commission_asset@,
            assets == commission_assets(trades@, at as nat),
            forall|j: int| 0 <= j < k ==> assets[j] != asset@,
            forall|i: int, j: int| 0 <= i < j < assets.len() ==> assets[i] != assets[j],
        decreases groups@.len() - k,
    {
        if groups[k].asset == *asset {
            proof {
                assert(assets[k as int] == asset@);
                assert(assets.contains(asset@));
            }
            groups[k].trades.push(at);
            proof {
                assert forall|j: int| 0 <= j < groups@.len() implies (#[trigger] groups@[j]).asset@
                    == assets[j] && groups@[j].stable == stablecoin(assets[j]) && groups@[j].trades@
                    == asset_positions(trades@, at as nat + 1, assets[j]) by {
                    let _ = start[j];
                }
            }
            return ;
        }
        k = k + 1;
    }
    let mut positions: Vec<usize> = Vec::new();
    positions.push(at);
    let stable = is_stablecoin(asset.as_str());
    groups.push(CommissionGroup { asset: asset.clone(), stable, trades: positions });
    proof {
        assert(!assets.contains(asset@));
        unseen_asset_has_no_positions(trades@, at as nat, asset@);
        assert forall|j: int| 0 <= j < groups@.len() implies (#[trigger] groups@[j]).asset@
            == assets.push(asset@)[j] && groups@[j].stable == stablecoin(assets.push(asset@)[j])
            && groups@[j].trades@ == asset_positions(
            trades@,
            at as nat + 1,
            assets.push(asset@)[j],
        ) by {
            if j < start.len() {
                let _ = start[j];
            }
        }
    }
}

/// Each commission asset is listed once.
pub proof fn assets_are_distinct(trades: Seq<BinanceTrade>, n: nat)
    ensures
        forall|i: int, j: int|
            0 <= i < j < commission_assets(trades, n).len() ==> commission_assets(trades, n)[i]
                != commission_assets(trades, n)[j],
    decreases n,
{
    if n > 0 {
        assets_are_distinct(trades, (n - 1) as nat);
        let before = commission_assets(trades, (n - 1) as nat);
        let asset = trades[n - 1].commission_asset@;
        if !before.contains(asset) {
            assert forall|i: int| 0 <= i < before.len() implies before[i] != asset by {
                assert(before.contains(before[i]));
            }
        }
    }
}

/// An asset that is not listed has no trades.
proof fn unseen_asset_has_no_positions(trades: Seq<BinanceTrade>, n: nat, asset: Seq<char>)
    requires
        !commission_assets(trades, n).contains(asset),
    ensures
        asset_positions(trades, n, asset) == Seq::<usize>::empty(),
    decreases n,
{
    if n > 0 {
        let before = commission_assets(trades, (n - 1) as nat);
        let last = trades[n - 1].commission_asset@;
        if before.contains(last) {
        } else {
            assert(before.push(last)[before.len() as int] == last);
            assert forall|x: Seq<char>| before.contains(x) implies before.push(last).contains(x) by {
                let i = choose|i: int| 0 <= i < before.len() && before[i] == x;
                assert(before.push(last)[i] == x);
            }
        }
        unseen_asset_has_no_positions(trades, (n - 1) as nat, asset);
    }
}

/// Splits a trade history; an empty one has no statistics.
pub fn trade_stats(trades: &[BinanceTrade]) -> (stats: Option<TradeStats>)
    ensures
        match stats {
            Some(s) => s.describes(trades@),
            None => trades@.len() == 0,
        },
{
    if trades.len() == 0 {
        return None;
    }
    let mut buys: Vec<usize> = Vec::new();
    let mut sells: Vec<usize> = Vec::new();
    let mut commissions: Vec<CommissionGroup> = Vec::new();
    let mut maker_count: usize = 0;
    let mut first_time: u64 = trades[0].time;
    let mut last_time: u64 = trades[0].time;
    let mut i: usize = 0;
    while i < trades.len()
        invariant
            i <= trades@.len(),
            0 < trades@.len(),
            buys@ == side_positions(trades@, i as nat, true),
            sells@ == side_positions(trades@, i as nat, false),
            groups_describe(commissions@, trades@, i as nat),
            maker_count == makers(trades@, i as nat),
            maker_count <= i,
            exists|j: int| 0 <= j < trades@.len() && trades@[j].time == first_time,
            exists|j: int| 0 <= j < trades@.len() && trades@[j].time == last_time,
            forall|j: int| 0 <= j < i ==> first_time <= trades@[j].time,
            forall|j: int| 0 <= j < i ==> trades@[j].time <= last_time,
        decreases trades@.len() - i,
    {
        if trades[i].is_buyer {
            buys.push(i);
        } else {
            sells.push(i);
        }
        add_commission(&mut commissions, trades, i);
        if trades[i].is_maker {
            maker_count = maker_count + 1;
        }
        if trades[i].time < first_time {
            first_time = trades[i].time;
        }
        if last_time < trades[i].time {
            last_time = trades[i].time;
        }
        i = i + 1;
    }
    Some(
        TradeStats {
            symbol: trades[0].symbol.clone(),
            total: trades.len(),
            buys,
            sells,
            commissions,
            maker_count,
            taker_count: trades.len() - maker_count,
            first_time,
            last_time,
        },
    )
}

/// The buys are exactly the positions of trades with the buyer flag, the sells
/// exactly the others, each in increasing order; so every trade is one or the
/// other, and together they are all trades.
pub proof fn every_trade_is_bought_or_sold(stats: TradeStats, trades: Seq<BinanceTrade>)
    requires
        stats.describes(trades),
    ensures
        stats.buys@.len() + stats.sells@.len() == stats.total,
        forall|i: usize|
            stats.buys@.contains(i) <==> i < trades.len() && trades[i as int].is_buyer,
        forall|i: usize|
            stats.sells@.contains(i) <==> i < trades.len() && !trades[i as int].is_buyer,
        forall|a: int, b: int|
            0 <= a < b < stats.buys@.len() ==> stats.buys@[a] < stats.buys@[b],
        forall|a: int, b: int|
            0 <= a < b < stats.sells@.len() ==> stats.sells@[a] < stats.sells@[b],
{
    side_positions_are(trades, trades.len(), true);
    side_positions_are(trades, trades.len(), false);
    sides_add_up(trades, trades.len());
}

/// Every trade belongs to exactly one commission group, the one of its asset;
/// the groups have different assets and their sizes add up to the number of
/// trades.
pub proof fn every_trade_has_one_commission_group(stats: TradeStats, trades: Seq<BinanceTrade>)
    requires
        stats.describes(trades),
    ensures
        forall|j: int, k: int|
            0 <= j < k < stats.commissions@.len() ==> stats.commissions@[j].asset@
                != stats.commissions@[k].asset@,
        forall|i: usize, k: int|
            0 <= k < stats.commissions@.len() ==> (
            #[trigger] stats.commissions@[k].trades@.contains(i) <==> i < trades.len()
                && trades[i as int].commission_asset@ == stats.commissions@[k].asset@),
        forall|i: usize| i < trades.len() ==> #[trigger] is_grouped(stats.commissions@, i),
        group_sizes(stats.commissions@, stats.commissions@.len()) == stats.total,
{
    let groups = stats.commissions@;
    let n = trades.len();
    let assets = commission_assets(trades, n);
    assets_are_distinct(trades, n);
    assert forall|i: usize, k: int| 0 <= k < groups.len() implies (
    #[trigger] groups[k].trades@.contains(i) <==> i < n && trades[i as int].commission_asset@
        == groups[k].asset@) by {
        asset_positions_are(trades, n, assets[k]);
    }
    assert forall|i: usize| i < n implies #[trigger] is_grouped(groups, i) by {
        asset_is_listed(trades, n, i as int);
        let k = choose|k: int|
            0 <= k < assets.len() && assets[k] == trades[i as int].commission_asset@;
        assert(groups[k].asset@ == assets[k]);
        assert(groups[k].trades@.contains(i));
    }
    assert forall|k: int| 0 <= k < groups.len() implies (#[trigger] groups[k]).trades@.len()
        == asset_positions(trades, n, assets[k]).len() by {}
    group_sizes_are(groups, trades, n, assets, groups.len());
    assets_add_up(trades, n);
}

/// The makers and the takers together are all trades, and every trade lies in
/// the trade period.
pub proof fn makers_and_takers_add_up(stats: TradeStats, trades: Seq<BinanceTrade>)
    requires
        stats.describes(trades),
    ensures
        stats.maker_count + stats.taker_count == stats.total,
        stats.first_time <= stats.last_time,
        forall|i: int|
            0 <= i < trades.len() ==> stats.first_time <= #[trigger] trades[i].time
                <= stats.last_time,
{
    let _ = trades[0].time;
}

/// The trade at position `i` belongs to some group.
pub open spec fn is_grouped(groups: Seq<CommissionGroup>, i: usize) -> bool {
    exists|k: int| 0 <= k < groups.len() && #[trigger] groups[k].trades@.contains(i)
}

/// The number of trades in the first `k` groups.
pub open spec fn group_sizes(groups: Seq<CommissionGroup>, k: nat) -> nat
    decreases k,
{
    if k == 0 {
        0
    } else {
        group_sizes(groups, (k - 1) as nat) + groups[k - 1].trades@.len()
    }
}

/// The number of the first `n` trades whose asset is among the first `k` of
/// `assets`, counted asset by asset.
spec fn listed_sizes(trades: Seq<BinanceTrade>, n: nat, assets: Seq<Seq<char>>, k: nat) -> nat
    decreases k,
{
    if k == 0 {
        0
    } else {
        listed_sizes(trades, n, assets, (k - 1) as nat) + asset_positions(
            trades,
            n,
            assets[k - 1],
        ).len()
    }
}

proof fn group_sizes_are(
    groups: Seq<CommissionGroup>,
    trades: Seq<BinanceTrade>,
    n: nat,
    assets: Seq<Seq<char>>,
    k: nat,
)
    requires
        k <= groups.len(),
        forall|j: int|
            0 <= j < groups.len() ==> (#[trigger] groups[j]).trades@.len() == asset_positions(
                trades,
                n,
                assets[j],
            ).len(),
    ensures
        group_sizes(groups, k) == listed_sizes(trades, n, assets, k),
    decreases k,
{
    if k > 0 {
        group_sizes_are(groups, trades, n, assets, (k - 1) as nat);
        let _ = groups[k - 1];
    }
}

/// One more trade adds one to the size of the group of its asset.
proof fn listed_sizes_step(trades: Seq<BinanceTrade>, n: nat, assets: Seq<Seq<char>>, k: nat)
    requires
        n > 0,
        k <= assets.len(),
        forall|i: int, j: int| 0 <= i < j < assets.len() ==> assets[i] != assets[j],
    ensures
        listed_sizes(trades, n, assets, k) == listed_sizes(trades, (n - 1) as nat, assets, k)
            + if exists|j: int| 0 <= j < k && assets[j] == trades[n - 1].commission_asset@ {
            1nat
        } else {
            0nat
        },
    decreases k,
{
    if k > 0 {
        listed_sizes_step(trades, n, assets, (k - 1) as nat);
        let asset = trades[n - 1].commission_asset@;
        if assets[k - 1] == asset {
            assert(forall|j: int| 0 <= j < k - 1 ==> assets[j] != asset);
        } else {
            if exists|j: int| 0 <= j < k && assets[j] == asset {
                let j = choose|j: int| 0 <= j < k && assets[j] == asset;
                assert(0 <= j < k - 1);
            }
        }
    }
}

proof fn listed_sizes_prefix(
    trades: Seq<BinanceTrade>,
    n: nat,
    assets: Seq<Seq<char>>,
    more: Seq<Seq<char>>,
    k: nat,
)
    requires
        k <= assets.len() <= more.len(),
        forall|j: int| 0 <= j < assets.len() ==> assets[j] == more[j],
    ensures
        listed_sizes(trades, n, assets, k) == listed_sizes(trades, n, more, k),
    decreases k,
{
    if k > 0 {
        listed_sizes_prefix(trades, n, assets, more, (k - 1) as nat);
    }
}

proof fn assets_add_up(trades: Seq<BinanceTrade>, n: nat)
    ensures
        listed_sizes(trades, n, commission_assets(trades, n), commission_assets(trades, n).len())
            == n,
    decreases n,
{
    if n > 0 {
        let m = (n - 1) as nat;
        let before = commission_assets(trades, m);
        let after = commission_assets(trades, n);
        let asset = trades[n - 1].commission_asset@;
        assets_add_up(trades, m);
        assets_are_distinct(trades, n);
        if before.contains(asset) {
            listed_sizes_step(trades, n, before, before.len());
        } else {
            unseen_asset_has_no_positions(trades, m, asset);
            assert(after == before.push(asset));
            listed_sizes_prefix(trades, m, before, after, before.len());
            listed_sizes_step(trades, n, after, before.len());
            assert(forall|j: int| 0 <= j < before.len() ==> after[j] == before[j]);
            assert(!(exists|j: int| 0 <= j < before.len() && after[j] == asset)) by {
                if exists|j: int| 0 <= j < before.len() && after[j] == asset {
                    let j = choose|j: int| 0 <= j < before.len() && after[j] == asset;
                    assert(before[j] == asset);
                }
            }
        }
    }
}

proof fn asset_is_listed(trades: Seq<BinanceTrade>, n: nat, i: int)
    requires
        0 <= i < n,
    ensures
        commission_assets(trades, n).contains(trades[i].commission_asset@),
    decreases n,
{
    let before = commission_assets(trades, (n - 1) as nat);
    let asset = trades[n - 1].commission_asset@;
    if i < n - 1 {
        asset_is_listed(trades, (n - 1) as nat, i);
        if !before.contains(asset) {
            let j = choose|j: int| 0 <= j < before.len() && before[j] == trades[i].commission_asset@;
            assert(before.push(asset)[j] == before[j]);
        }
    } else if !before.contains(asset) {
        assert(before.push(asset)[before.len() as int] == asset);
    }
}

proof fn asset_positions_are(trades: Seq<BinanceTrade>, n: nat, asset: Seq<char>)
    requires
        n <= trades.len(),
        n <= usize::MAX,
    ensures
        forall|i: usize|
            asset_positions(trades, n, asset).contains(i) <==> i < n
                && trades[i as int].commission_asset@ == asset,
    decreases n,
{
    if n > 0 {
        asset_positions_are(trades, (n - 1) as nat, asset);
        let before = asset_positions(trades, (n - 1) as nat, asset);
        assert forall|i: usize|
            asset_positions(trades, n, asset).contains(i) <==> i < n
                && trades[i as int].commission_asset@ == asset by {
            push_contains(before, (n - 1) as usize, i);
        }
    }
}

proof fn side_positions_are(trades: Seq<BinanceTrade>, n: nat, buyer: bool)
    requires
        n <= trades.len(),
        n <= usize::MAX,
    ensures
        forall|i: usize|
            side_positions(trades, n, buyer).contains(i) <==> i < n && trades[i as int].is_buyer
                == buyer,
        forall|a: int, b: int|
            0 <= a < b < side_positions(trades, n, buyer).len() ==> side_positions(
                trades,
                n,
                buyer,
            )[a] < side_positions(trades, n, buyer)[b],
    decreases n,
{
    if n > 0 {
        side_positions_are(trades, (n - 1) as nat, buyer);
        let before = side_positions(trades, (n - 1) as nat, buyer);
        assert forall|i: usize|
            side_positions(trades, n, buyer).contains(i) <==> i < n && trades[i as int].is_buyer
                == buyer by {
            push_contains(before, (n - 1) as usize, i);
        }
        assert forall|a: int| 0 <= a < before.len() implies before[a] < n - 1 by {
            assert(before.contains(before[a]));
        }
    }
}

proof fn push_contains(before: Seq<usize>, last: usize, x: usize)
    ensures
        before.push(last).contains(x) <==> before.contains(x) || x == last,
{
    if before.contains(x) {
        let i = choose|i: int| 0 <= i < before.len() && before[i] == x;
        assert(before.push(last)[i] == x);
    }
    assert(before.push(last)[before.len() as int] == last);
}

proof fn sides_add_up(trades: Seq<BinanceTrade>, n: nat)
    ensures
        side_positions(trades, n, true).len() + side_positions(trades, n, false).len() == n,
    decreases n,
{
    if n > 0 {
        sides_add_up(trades, (n - 1) as nat);
    }
}

/// The trades at some positions, in their order.
pub open spec fn picked(trades: Seq<BinanceTrade>, positions: Seq<usize>) -> Seq<BinanceTrade> {
    positions.map_values(|i: usize| trades[i as int])
}

/// `g`, a commission group of the trades `a`, and `h`, one of the trades `b`,
/// have the same asset and hold the same trades, in whatever order.
pub open spec fn same_group(
    a: Seq<BinanceTrade>,
    g: CommissionGroup,
    b: Seq<BinanceTrade>,
    h: CommissionGroup,
) -> bool {
    &&& g.asset@ == h.asset@
    &&& g.stable == h.stable
    &&& g.trades@.len() == h.trades@.len()
    &&& picked(a, g.trades@).to_multiset() == picked(b, h.trades@).to_multiset()
}

/// Some group among `groups`, those of the trades `b`, is the same as `g`.
pub open spec fn has_same_group(
    a: Seq<BinanceTrade>,
    g: CommissionGroup,
    b: Seq<BinanceTrade>,
    groups: Seq<CommissionGroup>,
) -> bool {
    exists|k: int| 0 <= k < groups.len() && #[trigger] same_group(a, g, b, groups[k])
}

/// The statistics do not depend on the order of the trades: in any other order
/// the counts and the period are the same, the buys and the sells are the same
/// trades, and there are the same commission groups with the same trades in
/// each.  Only the order of the groups may differ.
pub proof fn order_of_trades_does_not_matter(
    a: Seq<BinanceTrade>,
    b: Seq<BinanceTrade>,
    s: TradeStats,
    t: TradeStats,
)
    requires
        a.to_multiset() == b.to_multiset(),
        s.describes(a),
        t.describes(b),
    ensures
        s.total == t.total,
        s.buys@.len() == t.buys@.len(),
        s.sells@.len() == t.sells@.len(),
        s.maker_count == t.maker_count,
        s.taker_count == t.taker_count,
        s.first_time == t.first_time,
        s.last_time == t.last_time,
        picked(a, s.buys@).to_multiset() == picked(b, t.buys@).to_multiset(),
        picked(a, s.sells@).to_multiset() == picked(b, t.sells@).to_multiset(),
        s.commissions@.len() == t.commissions@.len(),
        forall|k: int|
            0 <= k < s.commissions@.len() ==> has_same_group(
                a,
                #[trigger] s.commissions@[k],
                b,
                t.commissions@,
            ),
        forall|k: int|
            0 <= k < t.commissions@.len() ==> has_same_group(
                b,
                #[trigger] t.commissions@[k],
                a,
                s.commissions@,
            ),
{
    a.to_multiset_ensures();
    b.to_multiset_ensures();
    let n = a.len();
    assert(n == b.len());
    assert(a.take(n as int) =~= a);
    assert(b.take(n as int) =~= b);
    sides_are_picked(a, n, true);
    sides_are_picked(b, n, true);
    sides_are_picked(a, n, false);
    sides_are_picked(b, n, false);
    picked(a, s.buys@).to_multiset_ensures();
    picked(b, t.buys@).to_multiset_ensures();
    picked(a, s.sells@).to_multiset_ensures();
    picked(b, t.sells@).to_multiset_ensures();
    makers_are_picked(a, n);
    makers_are_picked(b, n);
    times_are_bounds(a, b, s, t);
    times_are_bounds(b, a, t, s);
    groups_are_matched(a, b, s.commissions@, t.commissions@);
    groups_are_matched(b, a, t.commissions@, s.commissions@);
    listed_assets_are_among(a, b);
    listed_assets_are_among(b, a);
    let p = commission_assets(a, n);
    let q = commission_assets(b, n);
    assets_are_distinct(a, n);
    assets_are_distinct(b, n);
    assert(p.no_duplicates());
    assert(q.no_duplicates());
    p.unique_seq_to_set();
    q.unique_seq_to_set();
    assert(p.to_set() =~= q.to_set());
}

/// The period of a reordered history is no wider.
proof fn times_are_bounds(
    a: Seq<BinanceTrade>,
    b: Seq<BinanceTrade>,
    s: TradeStats,
    t: TradeStats,
)
    requires
        a.to_multiset() == b.to_multiset(),
        s.describes(a),
        t.describes(b),
    ensures
        s.first_time <= t.first_time,
        t.last_time <= s.last_time,
{
    let i = choose|i: int| 0 <= i < b.len() && b[i].time == t.first_time;
    let j = is_also_in(b, a, i);
    let k = choose|k: int| 0 <= k < b.len() && b[k].time == t.last_time;
    let l = is_also_in(b, a, k);
}

/// The position in `b` of a trade of `a`.
proof fn is_also_in(a: Seq<BinanceTrade>, b: Seq<BinanceTrade>, i: int) -> (j: int)
    requires
        a.to_multiset() == b.to_multiset(),
        0 <= i < a.len(),
    ensures
        0 <= j < b.len(),
        b[j] == a[i],
{
    a.to_multiset_ensures();
    b.to_multiset_ensures();
    assert(a.contains(a[i]));
    assert(a.to_multiset().count(a[i]) > 0);
    assert(b.contains(a[i]));
    choose|j: int| 0 <= j < b.len() && b[j] == a[i]
}

/// Keeping the elements with a property commutes with adding an element.
proof fn filter_insert<A>(m: Multiset<A>, f: spec_fn(A) -> bool, x: A)
    ensures
        m.insert(x).filter(f) == if f(x) {
            m.filter(f).insert(x)
        } else {
            m.filter(f)
        },
{
    if f(x) {
        assert(m.insert(x).filter(f) =~= m.filter(f).insert(x));
    } else {
        assert(m.insert(x).filter(f) =~= m.filter(f));
    }
}

spec fn on_side(buyer: bool) -> spec_fn(BinanceTrade) -> bool {
    |t: BinanceTrade| t.is_buyer == buyer
}

spec fn in_asset(asset: Seq<char>) -> spec_fn(BinanceTrade) -> bool {
    |t: BinanceTrade| t.commission_asset@ == asset
}

spec fn as_maker() -> spec_fn(BinanceTrade) -> bool {
    |t: BinanceTrade| t.is_maker
}

/// The first `n` trades are the first `n - 1` and one more.
proof fn one_more(trades: Seq<BinanceTrade>, n: nat, f: spec_fn(BinanceTrade) -> bool)
    requires
        0 < n <= trades.len(),
    ensures
        trades.take(n as int).to_multiset().filter(f) == if f(trades[n - 1]) {
            trades.take(n - 1).to_multiset().filter(f).insert(trades[n - 1])
        } else {
            trades.take(n - 1).to_multiset().filter(f)
        },
{
    let before = trades.take(n - 1);
    before.to_multiset_ensures();
    assert(trades.take(n as int) =~= before.push(trades[n - 1]));
    assert(before.push(trades[n - 1]).to_multiset() =~= before.to_multiset().insert(trades[n - 1]));
    filter_insert(before.to_multiset(), f, trades[n - 1]);
}

/// No trades have no trades with a property.
proof fn none_yet(trades: Seq<BinanceTrade>, f: spec_fn(BinanceTrade) -> bool)
    ensures
        trades.take(0).to_multiset().filter(f) == Multiset::<BinanceTrade>::empty(),
        picked(trades, Seq::empty()).to_multiset() == Multiset::<BinanceTrade>::empty(),
{
    trades.take(0).to_multiset_ensures();
    picked(trades, Seq::empty()).to_multiset_ensures();
    assert(trades.take(0).to_multiset() =~= Multiset::<BinanceTrade>::empty());
    assert(trades.take(0).to_multiset().filter(f) =~= Multiset::<BinanceTrade>::empty());
    assert(picked(trades, Seq::empty()).to_multiset() =~= Multiset::<BinanceTrade>::empty());
}

/// One more position picks one more trade.
proof fn picked_push(trades: Seq<BinanceTrade>, positions: Seq<usize>, i: usize)
    ensures
        picked(trades, positions.push(i)).to_multiset() == picked(
            trades,
            positions,
        ).to_multiset().insert(trades[i as int]),
{
    picked(trades, positions).to_multiset_ensures();
    assert(picked(trades, positions.push(i)) =~= picked(trades, positions).push(trades[i as int]));
}

proof fn sides_are_picked(trades: Seq<BinanceTrade>, n: nat, buyer: bool)
    requires
        n <= trades.len() <= usize::MAX,
    ensures
        picked(trades, side_positions(trades, n, buyer)).to_multiset() == trades.take(
            n as int,
        ).to_multiset().filter(on_side(buyer)),
    decreases n,
{
    if n == 0 {
        none_yet(trades, on_side(buyer));
    } else {
        sides_are_picked(trades, (n - 1) as nat, buyer);
        one_more(trades, n, on_side(buyer));
        picked_push(trades, side_positions(trades, (n - 1) as nat, buyer), (n - 1) as usize);
    }
}

proof fn assets_are_picked(trades: Seq<BinanceTrade>, n: nat, asset: Seq<char>)
    requires
        n <= trades.len() <= usize::MAX,
    ensures
        picked(trades, asset_positions(trades, n, asset)).to_multiset() == trades.take(
            n as int,
        ).to_multiset().filter(in_asset(asset)),
    decreases n,
{
    if n == 0 {
        none_yet(trades, in_asset(asset));
    } else {
        assets_are_picked(trades, (n - 1) as nat, asset);
        one_more(trades, n, in_asset(asset));
        picked_push(trades, asset_positions(trades, (n - 1) as nat, asset), (n - 1) as usize);
    }
}

proof fn makers_are_picked(trades: Seq<BinanceTrade>, n: nat)
    requires
        n <= trades.len(),
    ensures
        makers(trades, n) == trades.take(n as int).to_multiset().filter(as_maker()).len(),
    decreases n,
{
    if n == 0 {
        none_yet(trades, as_maker());
    } else {
        makers_are_picked(trades, (n - 1) as nat);
        one_more(trades, n, as_maker());
    }
}

/// A listed asset is that of some trade.
proof fn listed_asset_has_trade(trades: Seq<BinanceTrade>, n: nat, asset: Seq<char>) -> (i: int)
    requires
        commission_assets(trades, n).contains(asset),
    ensures
        0 <= i < n,
        trades[i].commission_asset@ == asset,
    decreases n,
{
    let before = commission_assets(trades, (n - 1) as nat);
    if trades[n - 1].commission_asset@ == asset {
        n - 1
    } else {
        let all = commission_assets(trades, n);
        let k = choose|k: int| 0 <= k < all.len() && all[k] == asset;
        assert(before[k] == asset);
        listed_asset_has_trade(trades, (n - 1) as nat, asset)
    }
}

/// A reordered history lists the same assets.
proof fn listed_assets_are_among(a: Seq<BinanceTrade>, b: Seq<BinanceTrade>)
    requires
        a.to_multiset() == b.to_multiset(),
    ensures
        forall|asset: Seq<char>| #[trigger]
            commission_assets(a, a.len()).contains(asset) ==> commission_assets(
                b,
                b.len(),
            ).contains(asset),
{
    assert forall|asset: Seq<char>| #[trigger]
        commission_assets(a, a.len()).contains(asset) implies commission_assets(
        b,
        b.len(),
    ).contains(asset) by {
        let i = listed_asset_has_trade(a, a.len(), asset);
        let j = is_also_in(a, b, i);
        asset_is_listed(b, b.len(), j);
    }
}

/// Each commission group of a history has its match in a reordered one.
proof fn groups_are_matched(
    a: Seq<BinanceTrade>,
    b: Seq<BinanceTrade>,
    g: Seq<CommissionGroup>,
    h: Seq<CommissionGroup>,
)
    requires
        a.to_multiset() == b.to_multiset(),
        a.len() <= usize::MAX,
        groups_describe(g, a, a.len()),
        groups_describe(h, b, b.len()),
    ensures
        forall|k: int| 0 <= k < g.len() ==> has_same_group(a, #[trigger] g[k], b, h),
{
    a.to_multiset_ensures();
    b.to_multiset_ensures();
    let n = a.len();
    let p = commission_assets(a, n);
    let q = commission_assets(b, n);
    assert(a.take(n as int) =~= a);
    assert(b.take(n as int) =~= b);
    assert forall|k: int| 0 <= k < g.len() implies has_same_group(a, #[trigger] g[k], b, h) by {
        let asset = p[k];
        assert(p.contains(asset));
        listed_assets_are_among(a, b);
        let j = choose|j: int| 0 <= j < q.len() && q[j] == asset;
        assert(h[j].asset@ == asset);
        assets_are_picked(a, n, asset);
        assets_are_picked(b, n, asset);
        picked(a, g[k].trades@).to_multiset_ensures();
        picked(b, h[j].trades@).to_multiset_ensures();
        assert(same_group(a, g[k], b, h[j]));
    }
}

/// Which amount of a trade is meant.
#[derive(Clone, Copy, Debug, PartialEq, Eq, Structural)]
pub enum TradeAmount {
    /// What was paid or received.
    Quote,
    /// The commission.
    Commission,
}

/// A total that the net profit is made of.
pub struct ProfitTerm {
    /// Whether the total is added to the profit; it is deducted otherwise.
    pub added: bool,
    /// Which amount of the trades is added up.
    pub amount: TradeAmount,
    /// The positions of the trades, in order.
    pub trades: Vec<usize>,
}

/// The fields of a term as plain values.
pub open spec fn term_fields(term: ProfitTerm) -> (bool, TradeAmount, Seq<usize>) {
    (term.added, term.amount, term.trades@)
}

/// The commissions among those of the first `n` groups that are deducted from
/// the profit.
pub open spec fn stable_terms(groups: Seq<CommissionGroup>, n: nat) -> Seq<
    (bool, TradeAmount, Seq<usize>),
>
    decreases n,
{
    if n == 0 {
        Seq::empty()
    } else {
        let before = stable_terms(groups, (n - 1) as nat);
        if groups[n - 1].stable {
            before.push((false, TradeAmount::Commission, groups[n - 1].trades@))
        } else {
            before
        }
    }
}

/// The net profit of a history: what was sold, less what was bought, less the
/// commissions in stablecoins.
pub open spec fn profit(stats: TradeStats) -> Seq<(bool, TradeAmount, Seq<usize>)> {
    seq![
        (true, TradeAmount::Quote, stats.sells@),
        (false, TradeAmount::Quote, stats.buys@),
    ] + stable_terms(stats.commissions@, stats.commissions@.len())
}

/// A term over the trades at some positions.
fn profit_term(added: bool, amount: TradeAmount, positions: &[usize]) -> (term: ProfitTerm)
    ensures
        term_fields(term) == (added, amount, positions@),
{
    let mut trades: Vec<usize> = Vec::new();
    let mut i: usize = 0;
    while i < positions.len()
        invariant
            i <= positions@.len(),
            trades@ == positions@.take(i as int),
        decreases positions@.len() - i,
    {
        trades.push(positions[i]);
        i = i + 1;
        proof {
            assert(positions@.take(i as int) =~= positions@.take(i - 1).push(positions@[i - 1]));
        }
    }
    proof {
        assert(positions@.take(i as int) =~= positions@);
    }
    ProfitTerm { added, amount, trades }
}

/// The totals that the net profit of a history is made of, with their signs.
pub fn profit_terms(stats: &TradeStats) -> (terms: Vec<ProfitTerm>)
    ensures
        terms@.map_values(|t: ProfitTerm| term_fields(t)) == profit(*stats),
{
    let mut terms: Vec<ProfitTerm> = Vec::new();
    terms.push(profit_term(true, TradeAmount::Quote, stats.sells.as_slice()));
    terms.push(profit_term(false, TradeAmount::Quote, stats.buys.as_slice()));
    let ghost quotes = seq![
        (true, TradeAmount::Quote, stats.sells@),
        (false, TradeAmount::Quote, stats.buys@),
    ];
    let groups = stats.commissions.as_slice();
    let mut k: usize = 0;
    proof {
        assert(terms@.map_values(|t: ProfitTerm| term_fields(t)) =~= quotes + stable_terms(
            groups@,
            0,
        ));
    }
    while k < groups.len()
        invariant
            k <= groups@.len(),
            terms@.map_values(|t: ProfitTerm| term_fields(t)) == quotes + stable_terms(
                groups@,
                k as nat,
            ),
        decreases groups@.len() - k,
    {
        if groups[k].stable {
            let ghost before = terms@;
            let term = profit_term(false, TradeAmount::Commission, groups[k].trades.as_slice());
            let ghost fields = term_fields(term);
            terms.push(term);
            proof {
                assert(terms@.map_values(|t: ProfitTerm| term_fields(t)) =~= before.map_values(
                    |t: ProfitTerm| term_fields(t),
                ).push(fields));
                assert(quotes + stable_terms(groups@, k as nat).push(fields) =~= (quotes
                    + stable_terms(groups@, k as nat)).push(fields));
            }
        }
        k = k + 1;
    }
    terms
}

/// How often the first `n` terms use an amount of the trade at position `i` with
/// a sign.
pub open spec fn uses(
    terms: Seq<(bool, TradeAmount, Seq<usize>)>,
    n: nat,
    added: bool,
    amount: TradeAmount,
    i: usize,
) -> nat
    decreases n,
{
    if n == 0 {
        0
    } else {
        uses(terms, (n - 1) as nat, added, amount, i) + if terms[n - 1].0 == added && terms[n - 1].1
            == amount {
            terms[n - 1].2.to_multiset().count(i)
        } else {
            0
        }
    }
}

/// The net profit counts the quote quantity of every sell once as gain, that of
/// every buy once as loss and the commission of every trade that paid in a
/// stablecoin once as loss, and no other amount.
pub proof fn profit_counts_every_amount_once(
    stats: TradeStats,
    trades: Seq<BinanceTrade>,
    i: usize,
)
    requires
        stats.describes(trades),
    ensures
        uses(profit(stats), profit(stats).len(), true, TradeAmount::Quote, i) == if i < trades.len()
            && !trades[i as int].is_buyer {
            1nat
        } else {
            0nat
        },
        uses(profit(stats), profit(stats).len(), false, TradeAmount::Quote, i) == if i
            < trades.len() && trades[i as int].is_buyer {
            1nat
        } else {
            0nat
        },
        uses(profit(stats), profit(stats).len(), false, TradeAmount::Commission, i) == if i
            < trades.len() && (trades[i as int].commission_asset@ == "USDT"@
            || trades[i as int].commission_asset@ == "USDC"@ || trades[i as int].commission_asset@
            == "BUSD"@) {
            1nat
        } else {
            0nat
        },
        uses(profit(stats), profit(stats).len(), true, TradeAmount::Commission, i) == 0,
{
    let groups = stats.commissions@;
    let n = trades.len();
    every_trade_is_bought_or_sold(stats, trades);
    every_trade_has_one_commission_group(stats, trades);
    increasing_holds_once(stats.buys@, i);
    increasing_holds_once(stats.sells@, i);
    profit_uses(stats, groups.len(), i);
    assert forall|k: int| 0 <= k < groups.len() implies (#[trigger] groups[k]).trades@.to_multiset().count(
        i,
    ) == if groups[k].trades@.contains(i) {
        1nat
    } else {
        0nat
    } by {
        asset_positions_increase(trades, n, groups[k].asset@);
        increasing_holds_once(groups[k].trades@, i);
    }
    if i < n {
        assert(is_grouped(groups, i));
        let k = choose|k: int| 0 <= k < groups.len() && #[trigger] groups[k].trades@.contains(i);
        assert forall|j: int| 0 <= j < groups.len() && j != k implies !(
        #[trigger] groups[j]).trades@.contains(i) by {
            if groups[j].trades@.contains(i) {
                assert(groups[j].asset@ == groups[k].asset@);
            }
        }
        stable_uses_one(groups, groups.len(), k, i);
        assert(groups[k].stable == stablecoin(groups[k].asset@));
    } else {
        assert forall|j: int| 0 <= j < groups.len() implies !(
        #[trigger] groups[j]).trades@.contains(i) by {}
        stable_uses_none(groups, groups.len(), i);
    }
}

/// How often the groups among the first `n` whose commission is deducted hold
/// the trade at position `i`.
spec fn stable_uses(groups: Seq<CommissionGroup>, n: nat, i: usize) -> nat
    decreases n,
{
    if n == 0 {
        0
    } else {
        stable_uses(groups, (n - 1) as nat, i) + if groups[n - 1].stable {
            groups[n - 1].trades@.to_multiset().count(i)
        } else {
            0
        }
    }
}

proof fn stable_uses_none(groups: Seq<CommissionGroup>, n: nat, i: usize)
    requires
        n <= groups.len(),
        forall|j: int| 0 <= j < n ==> (#[trigger] groups[j]).trades@.to_multiset().count(i) == 0,
    ensures
        stable_uses(groups, n, i) == 0,
    decreases n,
{
    if n > 0 {
        stable_uses_none(groups, (n - 1) as nat, i);
        assert(groups[n - 1].trades@.to_multiset().count(i) == 0);
    }
}

proof fn stable_uses_one(groups: Seq<CommissionGroup>, n: nat, k: int, i: usize)
    requires
        0 <= k < n <= groups.len(),
        groups[k].trades@.to_multiset().count(i) == 1,
        forall|j: int|
            0 <= j < n && j != k ==> (#[trigger] groups[j]).trades@.to_multiset().count(i) == 0,
    ensures
        stable_uses(groups, n, i) == if groups[k].stable {
            1nat
        } else {
            0nat
        },
    decreases n,
{
    if k == n - 1 {
        stable_uses_none(groups, (n - 1) as nat, i);
    } else {
        stable_uses_one(groups, (n - 1) as nat, k, i);
        assert(groups[n - 1].trades@.to_multiset().count(i) == 0);
    }
}

/// The uses of an amount, term by term.
proof fn profit_uses(stats: TradeStats, n: nat, i: usize)
    requires
        n <= stats.commissions@.len(),
    ensures
        ({
            let terms = seq![
                (true, TradeAmount::Quote, stats.sells@),
                (false, TradeAmount::Quote, stats.buys@),
            ] + stable_terms(stats.commissions@, n);
            &&& uses(terms, terms.len(), true, TradeAmount::Quote, i)
                == stats.sells@.to_multiset().count(i)
            &&& uses(terms, terms.len(), false, TradeAmount::Quote, i)
                == stats.buys@.to_multiset().count(i)
            &&& uses(terms, terms.len(), false, TradeAmount::Commission, i) == stable_uses(
                stats.commissions@,
                n,
                i,
            )
            &&& uses(terms, terms.len(), true, TradeAmount::Commission, i) == 0
        }),
    decreases n,
{
    let quotes = seq![
        (true, TradeAmount::Quote, stats.sells@),
        (false, TradeAmount::Quote, stats.buys@),
    ];
    let terms = quotes + stable_terms(stats.commissions@, n);
    if n == 0 {
        assert(terms =~= quotes);
        reveal_with_fuel(uses, 3);
    } else {
        profit_uses(stats, (n - 1) as nat, i);
        let before = quotes + stable_terms(stats.commissions@, (n - 1) as nat);
        if stats.commissions@[n - 1].stable {
            let last = (false, TradeAmount::Commission, stats.commissions@[n - 1].trades@);
            assert(terms =~= before.push(last));
            uses_prefix(before, last, before.len(), true, TradeAmount::Quote, i);
            uses_prefix(before, last, before.len(), false, TradeAmount::Quote, i);
            uses_prefix(before, last, before.len(), true, TradeAmount::Commission, i);
            uses_prefix(before, last, before.len(), false, TradeAmount::Commission, i);
        }
    }
}

proof fn uses_prefix(
    terms: Seq<(bool, TradeAmount, Seq<usize>)>,
    last: (bool, TradeAmount, Seq<usize>),
    n: nat,
    added: bool,
    amount: TradeAmount,
    i: usize,
)
    requires
        n <= terms.len(),
    ensures
        uses(terms.push(last), n, added, amount, i) == uses(terms, n, added, amount, i),
    decreases n,
{
    if n > 0 {
        uses_prefix(terms, last, (n - 1) as nat, added, amount, i);
    }
}

/// Increasing positions hold each position at most once.
proof fn increasing_holds_once(positions: Seq<usize>, i: usize)
    requires
        forall|a: int, b: int| 0 <= a < b < positions.len() ==> positions[a] < positions[b],
    ensures
        positions.to_multiset().count(i) == if positions.contains(i) {
            1nat
        } else {
            0nat
        },
{
    positions.to_multiset_ensures();
    assert(positions.no_duplicates());
    positions.lemma_multiset_has_no_duplicates();
    assert(positions.contains(i) <==> positions.to_multiset().count(i) > 0);
    assert(positions.to_multiset().contains(i) <==> positions.to_multiset().count(i) > 0);
}

proof fn asset_positions_increase(trades: Seq<BinanceTrade>, n: nat, asset: Seq<char>)
    requires
        n <= trades.len() <= usize::MAX,
    ensures
        forall|a: int, b: int|
            0 <= a < b < asset_positions(trades, n, asset).len() ==> asset_positions(
                trades,
                n,
                asset,
            )[a] < asset_positions(trades, n, asset)[b],
    decreases n,
{
    if n > 0 {
        asset_positions_increase(trades, (n - 1) as nat, asset);
        asset_positions_are(trades, (n - 1) as nat, asset);
        let before = asset_positions(trades, (n - 1) as nat, asset);
        assert forall|a: int| 0 <= a < before.len() implies before[a] < n - 1 by {
            assert(before.contains(before[a]));
        }
    }
}

/// The commission paid in one asset.
pub struct CommissionFigure {
    /// Whether it is more than nothing.
    pub positive: bool,
    /// The formatted amount.
    pub amount: String,
}

/// The formatted sizes of the trades on one side.
pub struct SideFigures {
    pub average: String,
    pub largest: String,
    pub smallest: String,
}

/// The formatted amounts of a trade history.
pub struct TradeFigures {
    pub total_bought: String,
    pub total_sold: String,
    pub net_pnl: String,
    /// Whether the net profit is at least zero.
    pub no_loss: bool,
    pub total_volume: String,
    pub buys: SideFigures,
    pub sells: SideFigures,
    pub maker_percent: String,
    /// The commissions, in the order of the commission groups.
    pub commissions: Vec<CommissionFigure>,
}

/// An amount right-aligned in its column.
pub open spec fn field(amount: Seq<char>) -> Seq<char> {
    right_aligned(amount, 12)
}

fn in_field(amount: &str) -> (text: String)
    ensures
        text@ == field(amount@),
{
    align_right(amount, 12)
}

/// The line on a commission that is deducted from the profit.
pub open spec fn stable_line(asset: Seq<char>, amount: Seq<char>) -> Seq<char> {
    "Commission ("@ + asset + "):  $"@ + field(amount)
}

/// The line on a commission that is not deducted.
pub open spec fn other_line(asset: Seq<char>, amount: Seq<char>) -> Seq<char> {
    "Commission ("@ + asset + "):    "@ + field(amount) + " (not deducted – valued separately)"@
}

/// The lines on the commissions in one asset among the first `n` groups: one for
/// each group of the asset with a positive amount.
pub open spec fn asset_lines(
    groups: Seq<CommissionGroup>,
    figures: Seq<CommissionFigure>,
    asset: Seq<char>,
    n: nat,
) -> Seq<Seq<char>>
    decreases n,
{
    if n == 0 {
        Seq::empty()
    } else {
        let before = asset_lines(groups, figures, asset, (n - 1) as nat);
        if groups[n - 1].asset@ == asset && figures[n - 1].positive {
            before.push(stable_line(asset, figures[n - 1].amount@))
        } else {
            before
        }
    }
}

/// The lines on the commissions that are not deducted, among the first `n`
/// groups.
pub open spec fn other_lines(
    groups: Seq<CommissionGroup>,
    figures: Seq<CommissionFigure>,
    n: nat,
) -> Seq<Seq<char>>
    decreases n,
{
    if n == 0 {
        Seq::empty()
    } else {
        let before = other_lines(groups, figures, (n - 1) as nat);
        if !stablecoin(groups[n - 1].asset@) && figures[n - 1].positive {
            before.push(other_line(groups[n - 1].asset@, figures[n - 1].amount@))
        } else {
            before
        }
    }
}

/// The line on the net profit: green with a check mark, or red for a loss.
pub open spec fn net_line(figures: TradeFigures) -> Seq<char> {
    if figures.no_loss {
        "Net PnL:          \x1b[32m$"@ + field(figures.net_pnl@) + " USDT ✓\x1b[0m"@
    } else {
        "Net PnL:          \x1b[31m$"@ + field(figures.net_pnl@) + " USDT\x1b[0m"@
    }
}

/// The lines on totals and on the commissions that are deducted.
pub open spec fn deducted_lines(stats: TradeStats, figures: TradeFigures) -> Seq<Seq<char>> {
    let groups = stats.commissions@;
    let amounts = figures.commissions@;
    seq![
        ""@,
        "--- Computed PnL ("@ + stats.symbol@ + ") ---"@,
        "Total bought:     $"@ + field(figures.total_bought@),
        "Total sold:       $"@ + field(figures.total_sold@),
    ] + asset_lines(groups, amounts, "USDT"@, groups.len()) + asset_lines(
        groups,
        amounts,
        "USDC"@,
        groups.len(),
    ) + asset_lines(groups, amounts, "BUSD"@, groups.len())
}

/// The lines on totals, commissions and profit.
pub open spec fn pnl_lines(stats: TradeStats, figures: TradeFigures) -> Seq<Seq<char>> {
    deducted_lines(stats, figures) + other_lines(
        stats.commissions@,
        figures.commissions@,
        stats.commissions@.len(),
    ) + seq!["─────────────────────────────"@, net_line(figures)]
}

/// The lines on the sizes of the trades on one side; none where there are none.
pub open spec fn side_lines(
    count: nat,
    average: Seq<char>,
    largest: Seq<char>,
    smallest: Seq<char>,
    figures: SideFigures,
) -> Seq<Seq<char>> {
    if count > 0 {
        seq![
            average + field(figures.average@),
            largest + field(figures.largest@),
            smallest + field(figures.smallest@),
        ]
    } else {
        Seq::empty()
    }
}

/// The lines on the number, size and kind of the trades.
pub open spec fn statistics_lines(stats: TradeStats, figures: TradeFigures) -> Seq<Seq<char>> {
    seq![
        ""@,
        "--- Trade Statistics ---"@,
        "Total trades:     "@ + right_aligned(decimal_text(stats.total as nat), 6) + "  ("@
            + decimal_text(stats.buys@.len()) + " buys, "@ + decimal_text(stats.sells@.len())
            + " sells)"@,
        "Total volume:     $"@ + field(figures.total_volume@),
    ] + side_lines(
        stats.buys@.len(),
        "Avg buy size:     $"@,
        "Largest buy:      $"@,
        "Smallest buy:     $"@,
        figures.buys,
    ) + side_lines(
        stats.sells@.len(),
        "Avg sell size:    $"@,
        "Largest sell:     $"@,
        "Smallest sell:    $"@,
        figures.sells,
    ) + seq![
        "Maker / Taker:    "@ + right_aligned(decimal_text(stats.maker_count as nat), 6) + " / "@
            + right_aligned(decimal_text(stats.taker_count as nat), 6) + "  ("@
            + figures.maker_percent@ + "% maker)"@,
    ]
}

/// The lines on the trade period.
pub open spec fn period_lines(from: Seq<char>, to: Seq<char>) -> Seq<Seq<char>> {
    seq![""@, "Trade period:"@, "  From: "@ + from, "  To:   "@ + to]
}

/// The lines of a trade report.
pub open spec fn trade_report_lines(
    stats: TradeStats,
    figures: TradeFigures,
    from: Seq<char>,
    to: Seq<char>,
) -> Seq<Seq<char>> {
    pnl_lines(stats, figures) + statistics_lines(stats, figures) + period_lines(from, to)
}

/// How many of the first `n` commissions are more than nothing.
pub open spec fn positive_commissions(figures: Seq<CommissionFigure>, n: nat) -> nat
    decreases n,
{
    if n == 0 {
        0
    } else {
        positive_commissions(figures, (n - 1) as nat) + if figures[n - 1].positive {
            1nat
        } else {
            0nat
        }
    }
}

/// Every commission that is more than nothing has exactly one line, as deducted
/// or as not deducted.
pub proof fn every_commission_is_reported_once(
    groups: Seq<CommissionGroup>,
    figures: Seq<CommissionFigure>,
    n: nat,
)
    ensures
        asset_lines(groups, figures, "USDT"@, n).len() + asset_lines(
            groups,
            figures,
            "USDC"@,
            n,
        ).len() + asset_lines(groups, figures, "BUSD"@, n).len() + other_lines(
            groups,
            figures,
            n,
        ).len() == positive_commissions(figures, n),
    decreases n,
{
    reveal_strlit("USDT");
    reveal_strlit("USDC");
    reveal_strlit("BUSD");
    assert("USDT"@[3] == 'T' && "USDC"@[3] == 'C' && "BUSD"@[3] == 'D');
    if n > 0 {
        every_commission_is_reported_once(groups, figures, (n - 1) as nat);
    }
}

/// Two groups of one asset paid commissions that are shown alike.
pub open spec fn commissions_agree(
    g: Seq<CommissionGroup>,
    f: Seq<CommissionFigure>,
    h: Seq<CommissionGroup>,
    e: Seq<CommissionFigure>,
) -> bool {
    forall|j: int, k: int|
        0 <= j < g.len() && 0 <= k < h.len() && (#[trigger] g[j]).asset@ == (
        #[trigger] h[k]).asset@ ==> f[j].positive == e[k].positive && f[j].amount@ == e[k].amount@
}

/// The sizes of one side are shown alike.
pub open spec fn sides_agree(f: SideFigures, e: SideFigures) -> bool {
    &&& f.average@ == e.average@
    &&& f.largest@ == e.largest@
    &&& f.smallest@ == e.smallest@
}

/// The amounts of two histories are shown alike, the commissions asset by asset.
pub open spec fn figures_agree(
    s: TradeStats,
    f: TradeFigures,
    t: TradeStats,
    e: TradeFigures,
) -> bool {
    &&& f.total_bought@ == e.total_bought@
    &&& f.total_sold@ == e.total_sold@
    &&& f.net_pnl@ == e.net_pnl@
    &&& f.no_loss == e.no_loss
    &&& f.total_volume@ == e.total_volume@
    &&& sides_agree(f.buys, e.buys)
    &&& sides_agree(f.sells, e.sells)
    &&& f.maker_percent@ == e.maker_percent@
    &&& commissions_agree(s.commissions@, f.commissions@, t.commissions@, e.commissions@)
}

/// The report does not depend on the order of the trades, as far as the amounts
/// and the pair of the first trade do not: it has the same lines in the same
/// places, but for the order of the commissions that are not deducted.
pub proof fn order_of_trades_does_not_show(
    a: Seq<BinanceTrade>,
    b: Seq<BinanceTrade>,
    s: TradeStats,
    t: TradeStats,
    f: TradeFigures,
    e: TradeFigures,
)
    requires
        a.to_multiset() == b.to_multiset(),
        a[0].symbol@ == b[0].symbol@,
        s.describes(a),
        t.describes(b),
        s.commissions@.len() == f.commissions@.len(),
        t.commissions@.len() == e.commissions@.len(),
        figures_agree(s, f, t, e),
    ensures
        deducted_lines(s, f) == deducted_lines(t, e),
        other_lines(s.commissions@, f.commissions@, s.commissions@.len()).to_multiset()
            == other_lines(t.commissions@, e.commissions@, t.commissions@.len()).to_multiset(),
        net_line(f) == net_line(e),
        statistics_lines(s, f) == statistics_lines(t, e),
        s.first_time == t.first_time,
        s.last_time == t.last_time,
{
    order_of_trades_does_not_matter(a, b, s, t);
    let g = s.commissions@;
    let h = t.commissions@;
    every_trade_has_one_commission_group(s, a);
    every_trade_has_one_commission_group(t, b);
    assert forall|j: int| 0 <= j < g.len() implies has_asset(h, (#[trigger] g[j]).asset@) by {
        assert(has_same_group(a, g[j], b, h));
        let k = choose|k: int| 0 <= k < h.len() && #[trigger] same_group(a, g[j], b, h[k]);
        assert(h[k].asset@ == g[j].asset@);
    }
    assert forall|j: int| 0 <= j < h.len() implies has_asset(g, (#[trigger] h[j]).asset@) by {
        assert(has_same_group(b, h[j], a, g));
        let k = choose|k: int| 0 <= k < g.len() && #[trigger] same_group(b, h[j], a, g[k]);
        assert(g[k].asset@ == h[j].asset@);
    }
    deducted_lines_agree(g, f.commissions@, h, e.commissions@, "USDT"@);
    deducted_lines_agree(g, f.commissions@, h, e.commissions@, "USDC"@);
    deducted_lines_agree(g, f.commissions@, h, e.commissions@, "BUSD"@);
    other_lines_agree(g, f.commissions@, h, e.commissions@);
}

/// Some group is that of the asset.
spec fn has_asset(groups: Seq<CommissionGroup>, asset: Seq<char>) -> bool {
    exists|k: int| 0 <= k < groups.len() && (#[trigger] groups[k]).asset@ == asset
}

/// The groups have different assets.
spec fn assets_differ(groups: Seq<CommissionGroup>) -> bool {
    forall|j: int, k: int|
        0 <= j < k < groups.len() ==> (#[trigger] groups[j]).asset@ != (#[trigger] groups[k]).asset@
}

/// Where no group has the asset, it has no line.
proof fn no_asset_line(
    groups: Seq<CommissionGroup>,
    figures: Seq<CommissionFigure>,
    asset: Seq<char>,
    n: nat,
)
    requires
        n <= groups.len(),
        forall|k: int| 0 <= k < n ==> (#[trigger] groups[k]).asset@ != asset,
    ensures
        asset_lines(groups, figures, asset, n) == Seq::<Seq<char>>::empty(),
    decreases n,
{
    if n > 0 {
        no_asset_line(groups, figures, asset, (n - 1) as nat);
        assert(groups[n - 1].asset@ != asset);
    }
}

/// An asset has the line of its only group.
proof fn one_asset_line(
    groups: Seq<CommissionGroup>,
    figures: Seq<CommissionFigure>,
    k: int,
    n: nat,
)
    requires
        0 <= k < n <= groups.len(),
        assets_differ(groups),
    ensures
        asset_lines(groups, figures, groups[k].asset@, n) == if figures[k].positive {
            seq![stable_line(groups[k].asset@, figures[k].amount@)]
        } else {
            Seq::empty()
        },
    decreases n,
{
    let asset = groups[k].asset@;
    if k == n - 1 {
        no_asset_line(groups, figures, asset, (n - 1) as nat);
        assert(asset_lines(groups, figures, asset, n) =~= if figures[k].positive {
            seq![stable_line(asset, figures[k].amount@)]
        } else {
            Seq::empty()
        });
    } else {
        one_asset_line(groups, figures, k, (n - 1) as nat);
        assert(groups[n - 1].asset@ != asset);
    }
}

proof fn deducted_lines_agree(
    g: Seq<CommissionGroup>,
    f: Seq<CommissionFigure>,
    h: Seq<CommissionGroup>,
    e: Seq<CommissionFigure>,
    asset: Seq<char>,
)
    requires
        assets_differ(g),
        assets_differ(h),
        commissions_agree(g, f, h, e),
        forall|j: int| 0 <= j < g.len() ==> has_asset(h, (#[trigger] g[j]).asset@),
        forall|j: int| 0 <= j < h.len() ==> has_asset(g, (#[trigger] h[j]).asset@),
    ensures
        asset_lines(g, f, asset, g.len()) == asset_lines(h, e, asset, h.len()),
{
    if has_asset(g, asset) {
        let j = choose|j: int| 0 <= j < g.len() && (#[trigger] g[j]).asset@ == asset;
        assert(has_asset(h, g[j].asset@));
        let k = choose|k: int| 0 <= k < h.len() && (#[trigger] h[k]).asset@ == asset;
        one_asset_line(g, f, j, g.len());
        one_asset_line(h, e, k, h.len());
    } else {
        assert forall|j: int| 0 <= j < h.len() implies (#[trigger] h[j]).asset@ != asset by {
            assert(has_asset(g, h[j].asset@));
        }
        no_asset_line(g, f, asset, g.len());
        no_asset_line(h, e, asset, h.len());
    }
}

/// Some lines and the one on a commission, if it has one among those that are
/// not deducted.
spec fn with_other_line(
    lines: Multiset<Seq<char>>,
    group: CommissionGroup,
    figure: CommissionFigure,
) -> Multiset<Seq<char>> {
    if !stablecoin(group.asset@) && figure.positive {
        lines.insert(other_line(group.asset@, figure.amount@))
    } else {
        lines
    }
}

proof fn other_lines_step(groups: Seq<CommissionGroup>, figures: Seq<CommissionFigure>, n: nat)
    requires
        0 < n,
    ensures
        other_lines(groups, figures, n).to_multiset() == with_other_line(
            other_lines(groups, figures, (n - 1) as nat).to_multiset(),
            groups[n - 1],
            figures[n - 1],
        ),
{
    other_lines(groups, figures, (n - 1) as nat).to_multiset_ensures();
}

proof fn other_lines_prefix(
    groups: Seq<CommissionGroup>,
    figures: Seq<CommissionFigure>,
    more: Seq<CommissionGroup>,
    others: Seq<CommissionFigure>,
    n: nat,
)
    requires
        forall|k: int| 0 <= k < n ==> groups[k] == more[k] && figures[k] == others[k],
    ensures
        other_lines(groups, figures, n) == other_lines(more, others, n),
    decreases n,
{
    if n > 0 {
        other_lines_prefix(groups, figures, more, others, (n - 1) as nat);
    }
}

/// Taking out a group takes out its line.
proof fn other_lines_remove(
    groups: Seq<CommissionGroup>,
    figures: Seq<CommissionFigure>,
    j: int,
    n: nat,
)
    requires
        0 <= j < n <= groups.len(),
        groups.len() == figures.len(),
    ensures
        other_lines(groups, figures, n).to_multiset() == with_other_line(
            other_lines(groups.remove(j), figures.remove(j), (n - 1) as nat).to_multiset(),
            groups[j],
            figures[j],
        ),
    decreases n,
{
    let rest = groups.remove(j);
    let others = figures.remove(j);
    other_lines_step(groups, figures, n);
    if j == n - 1 {
        other_lines_prefix(groups, figures, rest, others, (n - 1) as nat);
    } else {
        other_lines_remove(groups, figures, j, (n - 1) as nat);
        other_lines_step(rest, others, (n - 1) as nat);
        assert(rest[n - 2] == groups[n - 1] && others[n - 2] == figures[n - 1]);
        let m = other_lines(rest, others, (n - 2) as nat).to_multiset();
        assert(with_other_line(
            with_other_line(m, groups[j], figures[j]),
            groups[n - 1],
            figures[n - 1],
        ) =~= with_other_line(
            with_other_line(m, groups[n - 1], figures[n - 1]),
            groups[j],
            figures[j],
        ));
    }
}

proof fn other_lines_agree(
    g: Seq<CommissionGroup>,
    f: Seq<CommissionFigure>,
    h: Seq<CommissionGroup>,
    e: Seq<CommissionFigure>,
)
    requires
        g.len() == f.len(),
        h.len() == e.len(),
        g.len() == h.len(),
        assets_differ(g),
        assets_differ(h),
        commissions_agree(g, f, h, e),
        forall|j: int| 0 <= j < g.len() ==> has_asset(h, (#[trigger] g[j]).asset@),
    ensures
        other_lines(g, f, g.len()).to_multiset() == other_lines(h, e, h.len()).to_multiset(),
    decreases g.len(),
{
    if g.len() > 0 {
        let n = g.len();
        let last = g[n - 1];
        assert(has_asset(h, last.asset@));
        let j = choose|j: int| 0 <= j < h.len() && (#[trigger] h[j]).asset@ == last.asset@;
        let g1 = g.remove(n - 1);
        let f1 = f.remove(n - 1);
        let h1 = h.remove(j);
        let e1 = e.remove(j);
        assert forall|i: int| 0 <= i < g1.len() implies has_asset(h1, (#[trigger] g1[i]).asset@) by {
            assert(g1[i] == g[i]);
            assert(has_asset(h, g[i].asset@));
            let k = choose|k: int| 0 <= k < h.len() && (#[trigger] h[k]).asset@ == g[i].asset@;
            if k < j {
                assert(h1[k] == h[k]);
            } else {
                assert(k != j);
                assert(h1[k - 1] == h[k]);
            }
        }
        assert(assets_differ(h1)) by {
            assert forall|i: int, k: int| 0 <= i < k < h1.len() implies (
            #[trigger] h1[i]).asset@ != (#[trigger] h1[k]).asset@ by {
                let i2 = if i < j { i } else { i + 1 };
                let k2 = if k < j { k } else { k + 1 };
                assert(h1[i] == h[i2] && h1[k] == h[k2]);
            }
        }
        assert(commissions_agree(g1, f1, h1, e1)) by {
            assert forall|i: int, k: int|
                0 <= i < g1.len() && 0 <= k < h1.len() && (#[trigger] g1[i]).asset@ == (
                #[trigger] h1[k]).asset@ implies f1[i].positive == e1[k].positive && f1[i].amount@
                == e1[k].amount@ by {
                let k2 = if k < j { k } else { k + 1 };
                assert(g1[i] == g[i] && f1[i] == f[i]);
                assert(h1[k] == h[k2] && e1[k] == e[k2]);
            }
        }
        other_lines_agree(g1, f1, h1, e1);
        other_lines_remove(g, f, n - 1, n);
        other_lines_remove(h, e, j, n);
    }
}

/// Reports the commissions in one asset.
fn asset_report(groups: &[CommissionGroup], figures: &[CommissionFigure], asset: &str) -> (report:
    Report)
    requires
        groups@.len() == figures@.len(),
    ensures
        report@ == asset_lines(groups@, figures@, asset@, groups@.len()),
{
    let mut report = Report::new();
    let mut k: usize = 0;
    while k < groups.len()
        invariant
            k <= groups@.len(),
            groups@.len() == figures@.len(),
            report@ == asset_lines(groups@, figures@, asset@, k as nat),
        decreases groups@.len() - k,
    {
        if same_text(groups[k].asset.as_str(), asset) && figures[k].positive {
            report.push(
                "Commission (".to_owned().concat(asset).concat("):  $").concat(
                    in_field(figures[k].amount.as_str()).as_str(),
                ),
            );
        }
        k = k + 1;
    }
    report
}

/// Reports the commissions that are not deducted.
fn other_report(groups: &[CommissionGroup], figures: &[CommissionFigure]) -> (report: Report)
    requires
        groups@.len() == figures@.len(),
    ensures
        report@ == other_lines(groups@, figures@, groups@.len()),
{
    let mut report = Report::new();
    let mut k: usize = 0;
    while k < groups.len()
        invariant
            k <= groups@.len(),
            groups@.len() == figures@.len(),
            report@ == other_lines(groups@, figures@, k as nat),
        decreases groups@.len() - k,
    {
        if !is_stablecoin(groups[k].asset.as_str()) && figures[k].positive {
            report.push(
                "Commission (".to_owned().concat(groups[k].asset.as_str()).concat("):    ").concat(
                    in_field(figures[k].amount.as_str()).as_str(),
                ).concat(" (not deducted – valued separately)"),
            );
        }
        k = k + 1;
    }
    report
}

/// Reports totals, commissions and profit.
fn pnl_report(stats: &TradeStats, figures: &TradeFigures) -> (report: Report)
    requires
        stats.commissions@.len() == figures.commissions@.len(),
    ensures
        report@ == pnl_lines(*stats, *figures),
{
    let groups = stats.commissions.as_slice();
    let amounts = figures.commissions.as_slice();
    let mut report = Report::new();
    report.line("");
    report.push("--- Computed PnL (".to_owned().concat(stats.symbol.as_str()).concat(") ---"));
    report.push("Total bought:     $".to_owned().concat(in_field(figures.total_bought.as_str()).as_str()));
    report.push("Total sold:       $".to_owned().concat(in_field(figures.total_sold.as_str()).as_str()));
    proof {
        assert(report@ =~= seq![
            ""@,
            "--- Computed PnL ("@ + stats.symbol@ + ") ---"@,
            "Total bought:     $"@ + field(figures.total_bought@),
            "Total sold:       $"@ + field(figures.total_sold@),
        ]);
    }
    report.append(asset_report(groups, amounts, "USDT"));
    report.append(asset_report(groups, amounts, "USDC"));
    report.append(asset_report(groups, amounts, "BUSD"));
    report.append(other_report(groups, amounts));
    let ghost commissions = report@;
    report.line("─────────────────────────────");
    if figures.no_loss {
        report.push(
            "Net PnL:          \x1b[32m$".to_owned().concat(in_field(figures.net_pnl.as_str()).as_str()).concat(
                " USDT ✓\x1b[0m",
            ),
        );
    } else {
        report.push(
            "Net PnL:          \x1b[31m$".to_owned().concat(in_field(figures.net_pnl.as_str()).as_str()).concat(
                " USDT\x1b[0m",
            ),
        );
    }
    proof {
        assert(report@ =~= commissions + seq![
            "─────────────────────────────"@,
            net_line(*figures),
        ]);
    }
    report
}

/// Reports the sizes of the trades on one side.
fn side_report(count: usize, average: &str, largest: &str, smallest: &str, figures: &SideFigures) -> (
report: Report)
    ensures
        report@ == side_lines(count as nat, average@, largest@, smallest@, *figures),
{
    let mut report = Report::new();
    if count > 0 {
        report.push(average.to_owned().concat(in_field(figures.average.as_str()).as_str()));
        report.push(largest.to_owned().concat(in_field(figures.largest.as_str()).as_str()));
        report.push(smallest.to_owned().concat(in_field(figures.smallest.as_str()).as_str()));
    }
    proof {
        assert(report@ =~= side_lines(count as nat, average@, largest@, smallest@, *figures));
    }
    report
}

/// Reports the number, size and kind of the trades.
fn statistics_report(stats: &TradeStats, figures: &TradeFigures) -> (report: Report)
    ensures
        report@ == statistics_lines(*stats, *figures),
{
    let mut report = Report::new();
    report.line("");
    report.line("--- Trade Statistics ---");
    report.push(
        "Total trades:     ".to_owned().concat(
            align_right(decimal(stats.total as u64).as_str(), 6).as_str(),
        ).concat("  (").concat(decimal(stats.buys.len() as u64).as_str()).concat(
            " buys, ",
        ).concat(decimal(stats.sells.len() as u64).as_str()).concat(" sells)"),
    );
    report.push(
        "Total volume:     $".to_owned().concat(in_field(figures.total_volume.as_str()).as_str()),
    );
    report.append(
        side_report(
            stats.buys.len(),
            "Avg buy size:     $",
            "Largest buy:      $",
            "Smallest buy:     $",
            &figures.buys,
        ),
    );
    report.append(
        side_report(
            stats.sells.len(),
            "Avg sell size:    $",
            "Largest sell:     $",
            "Smallest sell:    $",
            &figures.sells,
        ),
    );
    report.push(
        "Maker / Taker:    ".to_owned().concat(
            align_right(decimal(stats.maker_count as u64).as_str(), 6).as_str(),
        ).concat(" / ").concat(
            align_right(decimal(stats.taker_count as u64).as_str(), 6).as_str(),
        ).concat("  (").concat(figures.maker_percent.as_str()).concat("% maker)"),
    );
    proof {
        assert(report@ =~= statistics_lines(*stats, *figures));
    }
    report
}

/// Reports on a trade history, given the texts of the ends of its period.
pub fn trade_report_for_period(
    stats: &TradeStats,
    figures: &TradeFigures,
    from: &str,
    to: &str,
) -> (report: Report)
    requires
        stats.commissions@.len() == figures.commissions@.len(),
    ensures
        report@ == trade_report_lines(*stats, *figures, from@, to@),
{
    let mut report = pnl_report(stats, figures);
    report.append(statistics_report(stats, figures));
    let ghost head = report@;
    report.line("");
    report.line("Trade period:");
    report.push("  From: ".to_owned().concat(from));
    report.push("  To:   ".to_owned().concat(to));
    proof {
        assert(report@ =~= head + period_lines(from@, to@));
    }
    report
}

/// Reports on a trade history.
pub fn trade_report(stats: &TradeStats, figures: &TradeFigures) -> (report: Report)
    requires
        stats.commissions@.len() == figures.commissions@.len(),
        stats.first_time / 1000 <= LAST_UTC_SECOND,
        stats.last_time / 1000 <= LAST_UTC_SECOND,
    ensures
        report@ == trade_report_lines(
            *stats,
            *figures,
            utc_text(stats.first_time / 1000, UTC_LAYOUT@),
            utc_text(stats.last_time / 1000, UTC_LAYOUT@),
        ),
        has_calendar_text(stats.first_time / 1000),
        has_calendar_text(stats.last_time / 1000),
{
    let from = utc_from_millis(stats.first_time);
    let to = utc_from_millis(stats.last_time);
    trade_report_for_period(stats, figures, from.as_str(), to.as_str())
}

/// Commissions are deducted from the profit in the three stablecoins and in no
/// other asset.
pub proof fn three_assets_are_stable(asset: Seq<char>)
    ensures
        stablecoin(asset) <==> asset == "USDT"@ || asset == "USDC"@ || asset == "BUSD"@,
{
}

/// The statistics are those of the trades: the pair of the first one, their number,
/// how many were made as maker and how many as taker, the earliest and the latest
/// time, and for each commission asset its trades in order, deducted for the three
/// stablecoins alone.
pub proof fn statistics_are_those_of_the_trades(stats: TradeStats, trades: Seq<BinanceTrade>)
    requires
        stats.describes(trades),
    ensures
        trades.len() > 0,
        stats.symbol@ == trades[0].symbol@,
        stats.total == trades.len(),
        stats.maker_count == Set::new(
            |i: int| 0 <= i < trades.len() && trades[i].is_maker,
        ).len(),
        stats.taker_count == Set::new(
            |i: int| 0 <= i < trades.len() && !trades[i].is_maker,
        ).len(),
        exists|i: int| 0 <= i < trades.len() && (#[trigger] trades[i]).time == stats.first_time,
        exists|i: int| 0 <= i < trades.len() && (#[trigger] trades[i]).time == stats.last_time,
        forall|i: int|
            0 <= i < trades.len() ==> stats.first_time <= (#[trigger] trades[i]).time
                <= stats.last_time,
        forall|k: int|
            0 <= k < stats.commissions@.len() ==> ((#[trigger] stats.commissions@[k]).stable <==> (
            stats.commissions@[k].asset@ == "USDT"@ || stats.commissions@[k].asset@ == "USDC"@
                || stats.commissions@[k].asset@ == "BUSD"@)),
        forall|k: int, a: int, b: int|
            0 <= k < stats.commissions@.len() && 0 <= a < b < stats.commissions@[k].trades@.len()
                ==> #[trigger] stats.commissions@[k].trades@[a]
                < #[trigger] stats.commissions@[k].trades@[b],
{
    let n = trades.len();
    makers_are_counted(trades, n);
    let i = choose|i: int| 0 <= i < trades.len() && trades[i].time == stats.first_time;
    assert(trades[i].time == stats.first_time);
    let j = choose|j: int| 0 <= j < trades.len() && trades[j].time == stats.last_time;
    assert(trades[j].time == stats.last_time);
    assert forall|k: int, a: int, b: int|
        0 <= k < stats.commissions@.len() && 0 <= a < b < stats.commissions@[k].trades@.len()
        implies #[trigger] stats.commissions@[k].trades@[a]
        < #[trigger] stats.commissions@[k].trades@[b] by {
        let _ = stats.commissions@[k];
        asset_positions_increase(trades, n, commission_assets(trades, n)[k]);
    }
}

proof fn makers_are_counted(trades: Seq<BinanceTrade>, n: nat)
    requires
        n <= trades.len(),
    ensures
        Set::new(|i: int| 0 <= i < n && trades[i].is_maker).finite(),
        Set::new(|i: int| 0 <= i < n && !trades[i].is_maker).finite(),
        Set::new(|i: int| 0 <= i < n && trades[i].is_maker).len() == makers(trades, n),
        Set::new(|i: int| 0 <= i < n && !trades[i].is_maker).len() == n - makers(trades, n),
    decreases n,
{
    let made = Set::new(|i: int| 0 <= i < n && trades[i].is_maker);
    let taken = Set::new(|i: int| 0 <= i < n && !trades[i].is_maker);
    if n == 0 {
        assert(made =~= Set::empty());
        assert(taken =~= Set::empty());
    } else {
        makers_are_counted(trades, (n - 1) as nat);
        let made_before = Set::new(|i: int| 0 <= i < n - 1 && trades[i].is_maker);
        let taken_before = Set::new(|i: int| 0 <= i < n - 1 && !trades[i].is_maker);
        if trades[n - 1].is_maker {
            assert(made =~= made_before.insert(n - 1));
            assert(taken =~= taken_before);
        } else {
            assert(made =~= made_before);
            assert(taken =~= taken_before.insert(n - 1));
        }
    }
}

/// A commission is deducted exactly if its asset is one of the three stablecoins:
/// such a group, and no other, has a term of the profit, and the line "not
/// deducted" is written for groups without such a term alone.
pub proof fn deducted_commissions_are_not_called_otherwise(
    stats: TradeStats,
    trades: Seq<BinanceTrade>,
    figures: Seq<CommissionFigure>,
    k: int,
)
    requires
        stats.describes(trades),
        stats.commissions@.len() == figures.len(),
        0 <= k < figures.len(),
    ensures
        profit(stats).contains(
            (false, TradeAmount::Commission, stats.commissions@[k].trades@),
        ) <==> stats.commissions@[k].asset@ == "USDT"@ || stats.commissions@[k].asset@ == "USDC"@
            || stats.commissions@[k].asset@ == "BUSD"@,
        figures[k].positive && !profit(stats).contains(
            (false, TradeAmount::Commission, stats.commissions@[k].trades@),
        ) ==> other_lines(stats.commissions@, figures, figures.len()).contains(
            "Commission ("@ + stats.commissions@[k].asset@ + "):    "@ + right_aligned(
                figures[k].amount@,
                12,
            ) + " (not deducted – valued separately)"@,
        ),
        forall|p: int|
            0 <= p < other_lines(stats.commissions@, figures, figures.len()).len() ==> exists|j: int|
                {
                    &&& 0 <= j < figures.len()
                    &&& figures[j].positive
                    &&& !profit(stats).contains(
                        (false, TradeAmount::Commission, stats.commissions@[j].trades@),
                    )
                    &&& #[trigger] other_lines(stats.commissions@, figures, figures.len())[p]
                        == "Commission ("@ + (#[trigger] stats.commissions@[j]).asset@ + "):    "@
                        + right_aligned(figures[j].amount@, 12)
                        + " (not deducted – valued separately)"@
                },
{
    let groups = stats.commissions@;
    let n = figures.len();
    assert forall|j: int| 0 <= j < n implies (profit(stats).contains(
        (false, TradeAmount::Commission, #[trigger] groups[j].trades@),
    ) <==> groups[j].asset@ == "USDT"@ || groups[j].asset@ == "USDC"@ || groups[j].asset@
        == "BUSD"@) by {
        stable_group_has_its_term(stats, trades, j);
    }
    assert(groups[k].trades@ == groups[k].trades@);
    other_line_is_there(groups, figures, n, k);
    assert forall|p: int| 0 <= p < other_lines(groups, figures, n).len() implies exists|j: int|
        {
            &&& 0 <= j < n
            &&& figures[j].positive
            &&& !profit(stats).contains((false, TradeAmount::Commission, groups[j].trades@))
            &&& #[trigger] other_lines(groups, figures, n)[p] == "Commission ("@ + (
            #[trigger] groups[j]).asset@ + "):    "@ + right_aligned(figures[j].amount@, 12)
                + " (not deducted – valued separately)"@
        } by {
        let j = other_line_has_its_group(groups, figures, n, p);
        assert(groups[j].trades@ == groups[j].trades@);
        assert(groups[j].asset@ == groups[j].asset@);
    }
}

/// A stablecoin group, and no other, has a term of the profit.
proof fn stable_group_has_its_term(stats: TradeStats, trades: Seq<BinanceTrade>, k: int)
    requires
        stats.describes(trades),
        0 <= k < stats.commissions@.len(),
    ensures
        profit(stats).contains(
            (false, TradeAmount::Commission, stats.commissions@[k].trades@),
        ) <==> stats.commissions@[k].asset@ == "USDT"@ || stats.commissions@[k].asset@ == "USDC"@
            || stats.commissions@[k].asset@ == "BUSD"@,
{
    let groups = stats.commissions@;
    let term = (false, TradeAmount::Commission, groups[k].trades@);
    let n = groups.len();
    let stable = stable_terms(groups, n);
    let quotes = seq![
        (true, TradeAmount::Quote, stats.sells@),
        (false, TradeAmount::Quote, stats.buys@),
    ];
    assert(groups[k].stable == stablecoin(groups[k].asset@));
    if groups[k].stable {
        stable_term_is_there(groups, n, k);
        let q = choose|q: int| 0 <= q < stable.len() && stable[q] == term;
        assert(profit(stats)[q + 2] == term);
    }
    if profit(stats).contains(term) {
        let q = choose|q: int| 0 <= q < profit(stats).len() && profit(stats)[q] == term;
        assert(q >= 2);
        let j = stable_term_has_its_group(groups, n, q - 2);
        every_trade_has_one_commission_group(stats, trades);
        asset_group_is_not_empty(trades, trades.len(), k);
        let i = groups[k].trades@[0];
        assert(groups[k].trades@.contains(i));
        assert(groups[j].trades@.contains(i));
        assert(groups[j].asset@ == groups[k].asset@);
        assert(j == k);
    }
}

/// A commission group holds a trade.
proof fn asset_group_is_not_empty(trades: Seq<BinanceTrade>, n: nat, k: int)
    requires
        n <= trades.len() <= usize::MAX,
        0 <= k < commission_assets(trades, n).len(),
    ensures
        asset_positions(trades, n, commission_assets(trades, n)[k]).len() > 0,
{
    let assets = commission_assets(trades, n);
    assert(assets.contains(assets[k]));
    let i = listed_asset_has_trade(trades, n, assets[k]);
    asset_positions_are(trades, n, assets[k]);
    assert(asset_positions(trades, n, assets[k]).contains(i as usize));
}

proof fn stable_term_is_there(groups: Seq<CommissionGroup>, n: nat, k: int)
    requires
        0 <= k < n <= groups.len(),
        groups[k].stable,
    ensures
        stable_terms(groups, n).contains((false, TradeAmount::Commission, groups[k].trades@)),
    decreases n,
{
    let term = (false, TradeAmount::Commission, groups[k].trades@);
    let before = stable_terms(groups, (n - 1) as nat);
    if k == n - 1 {
        assert(stable_terms(groups, n)[before.len() as int] == term);
    } else {
        stable_term_is_there(groups, (n - 1) as nat, k);
        let q = choose|q: int| 0 <= q < before.len() && before[q] == term;
        assert(stable_terms(groups, n)[q] == term);
    }
}

proof fn stable_term_has_its_group(groups: Seq<CommissionGroup>, n: nat, q: int) -> (k: int)
    requires
        n <= groups.len(),
        0 <= q < stable_terms(groups, n).len(),
    ensures
        0 <= k < n,
        groups[k].stable,
        stable_terms(groups, n)[q] == (false, TradeAmount::Commission, groups[k].trades@),
    decreases n,
{
    let before = stable_terms(groups, (n - 1) as nat);
    if q < before.len() {
        stable_term_has_its_group(groups, (n - 1) as nat, q)
    } else {
        n - 1
    }
}

proof fn other_line_is_there(
    groups: Seq<CommissionGroup>,
    figures: Seq<CommissionFigure>,
    n: nat,
    k: int,
)
    requires
        0 <= k < n,
    ensures
        figures[k].positive && groups[k].asset@ != "USDT"@ && groups[k].asset@ != "USDC"@
            && groups[k].asset@ != "BUSD"@ ==> other_lines(groups, figures, n).contains(
            other_line(groups[k].asset@, figures[k].amount@),
        ),
    decreases n,
{
    let line = other_line(groups[k].asset@, figures[k].amount@);
    let before = other_lines(groups, figures, (n - 1) as nat);
    if figures[k].positive && !stablecoin(groups[k].asset@) {
        if k == n - 1 {
            assert(other_lines(groups, figures, n)[before.len() as int] == line);
        } else {
            other_line_is_there(groups, figures, (n - 1) as nat, k);
            let q = choose|q: int| 0 <= q < before.len() && before[q] == line;
            assert(other_lines(groups, figures, n)[q] == line);
        }
    }
}

proof fn other_line_has_its_group(
    groups: Seq<CommissionGroup>,
    figures: Seq<CommissionFigure>,
    n: nat,
    p: int,
) -> (k: int)
    requires
        0 <= p < other_lines(groups, figures, n).len(),
    ensures
        0 <= k < n,
        figures[k].positive,
        groups[k].asset@ != "USDT"@ && groups[k].asset@ != "USDC"@ && groups[k].asset@ != "BUSD"@,
        other_lines(groups, figures, n)[p] == other_line(groups[k].asset@, figures[k].amount@),
    decreases n,
{
    let before = other_lines(groups, figures, (n - 1) as nat);
    if p < before.len() {
        other_line_has_its_group(groups, figures, (n - 1) as nat, p)
    } else {
        n - 1
    }
}

/// `k` is the group of the asset if its commission is shown, and -1 if none is.
pub open spec fn is_shown_group(
    groups: Seq<CommissionGroup>,
    figures: Seq<CommissionFigure>,
    asset: Seq<char>,
    k: int,
) -> bool {
    ||| 0 <= k < groups.len() && groups[k].asset@ == asset && figures[k].positive
    ||| k == -1 && forall|j: int|
        0 <= j < groups.len() && (#[trigger] groups[j]).asset@ == asset ==> !figures[j].positive
}

/// The commissions that are deducted are shown first, in the order USDT, USDC,
/// BUSD, each with its amount in dollars, where the amount is more than nothing.
pub proof fn deducted_commissions_are_shown_in_order(
    stats: TradeStats,
    trades: Seq<BinanceTrade>,
    figures: TradeFigures,
    u: int,
    v: int,
    w: int,
)
    requires
        stats.describes(trades),
        stats.commissions@.len() == figures.commissions@.len(),
        is_shown_group(stats.commissions@, figures.commissions@, "USDT"@, u),
        is_shown_group(stats.commissions@, figures.commissions@, "USDC"@, v),
        is_shown_group(stats.commissions@, figures.commissions@, "BUSD"@, w),
    ensures
        deducted_lines(stats, figures).skip(4) == (if u >= 0 {
            seq!["Commission (USDT):  $"@ + right_aligned(figures.commissions@[u].amount@, 12)]
        } else {
            Seq::empty()
        }) + (if v >= 0 {
            seq!["Commission (USDC):  $"@ + right_aligned(figures.commissions@[v].amount@, 12)]
        } else {
            Seq::empty()
        }) + (if w >= 0 {
            seq!["Commission (BUSD):  $"@ + right_aligned(figures.commissions@[w].amount@, 12)]
        } else {
            Seq::empty()
        }),
{
    let groups = stats.commissions@;
    let amounts = figures.commissions@;
    every_trade_has_one_commission_group(stats, trades);
    reveal_strlit("Commission (");
    reveal_strlit("):  $");
    reveal_strlit("USDT");
    reveal_strlit("USDC");
    reveal_strlit("BUSD");
    reveal_strlit("Commission (USDT):  $");
    reveal_strlit("Commission (USDC):  $");
    reveal_strlit("Commission (BUSD):  $");
    assert("Commission ("@ + "USDT"@ + "):  $"@ =~= "Commission (USDT):  $"@);
    assert("Commission ("@ + "USDC"@ + "):  $"@ =~= "Commission (USDC):  $"@);
    assert("Commission ("@ + "BUSD"@ + "):  $"@ =~= "Commission (BUSD):  $"@);
    asset_is_shown(groups, amounts, "USDT"@, u);
    asset_is_shown(groups, amounts, "USDC"@, v);
    asset_is_shown(groups, amounts, "BUSD"@, w);
    let n = groups.len();
    assert(deducted_lines(stats, figures).skip(4) =~= asset_lines(groups, amounts, "USDT"@, n)
        + asset_lines(groups, amounts, "USDC"@, n) + asset_lines(groups, amounts, "BUSD"@, n));
}

proof fn asset_is_shown(
    groups: Seq<CommissionGroup>,
    figures: Seq<CommissionFigure>,
    asset: Seq<char>,
    k: int,
)
    requires
        assets_differ(groups),
        is_shown_group(groups, figures, asset, k),
    ensures
        asset_lines(groups, figures, asset, groups.len()) == if k >= 0 {
            seq![stable_line(asset, figures[k].amount@)]
        } else {
            Seq::empty()
        },
{
    if has_asset(groups, asset) {
        let j = choose|j: int| 0 <= j < groups.len() && (#[trigger] groups[j]).asset@ == asset;
        one_asset_line(groups, figures, j, groups.len());
        if k >= 0 && k != j {
            if k < j {
                assert(groups[k].asset@ != groups[j].asset@);
            } else {
                assert(groups[j].asset@ != groups[k].asset@);
            }
        }
    } else {
        if k >= 0 {
            assert(groups[k].asset@ == asset);
        }
        no_asset_line(groups, figures, asset, groups.len());
    }
}

proof fn positive_are_counted(figures: Seq<CommissionFigure>, n: nat)
    requires
        n <= figures.len(),
    ensures
        Set::new(|k: int| 0 <= k < n && figures[k].positive).finite(),
        Set::new(|k: int| 0 <= k < n && figures[k].positive).len() == positive_commissions(
            figures,
            n,
        ),
    decreases n,
{
    let shown = Set::new(|k: int| 0 <= k < n && figures[k].positive);
    if n == 0 {
        assert(shown =~= Set::empty());
    } else {
        positive_are_counted(figures, (n - 1) as nat);
        let before = Set::new(|k: int| 0 <= k < n - 1 && figures[k].positive);
        if figures[n - 1].positive {
            assert(shown =~= before.insert(n - 1));
        } else {
            assert(shown =~= before);
        }
    }
}

/// The report shows each figure in its place: the totals, a line for each
/// commission that is more than nothing, the net profit in green with a check mark
/// or in red for a loss, the counts, the sizes of the trades on each side that has
/// any, makers and takers, and the period.
pub proof fn trade_report_shows_the_figures(
    stats: TradeStats,
    figures: TradeFigures,
    from: Seq<char>,
    to: Seq<char>,
)
    requires
        stats.commissions@.len() == figures.commissions@.len(),
    ensures
        ({
            let lines = trade_report_lines(stats, figures, from, to);
            let c = Set::new(
                |k: int| 0 <= k < figures.commissions@.len() && figures.commissions@[k].positive,
            ).len() as int;
            let b: int = if stats.buys@.len() > 0 {
                3
            } else {
                0
            };
            let s: int = if stats.sells@.len() > 0 {
                3
            } else {
                0
            };
            &&& lines.len() == 15 + c + b + s
            &&& lines[0] == ""@
            &&& lines[1] == "--- Computed PnL ("@ + stats.symbol@ + ") ---"@
            &&& lines[2] == "Total bought:     $"@ + right_aligned(figures.total_bought@, 12)
            &&& lines[3] == "Total sold:       $"@ + right_aligned(figures.total_sold@, 12)
            &&& lines.subrange(4, 4 + c) == deducted_lines(stats, figures).skip(4) + other_lines(
                stats.commissions@,
                figures.commissions@,
                figures.commissions@.len(),
            )
            &&& lines[4 + c] == "─────────────────────────────"@
            &&& figures.no_loss ==> lines[5 + c] == "Net PnL:          \x1b[32m$"@ + right_aligned(
                figures.net_pnl@,
                12,
            ) + " USDT ✓\x1b[0m"@
            &&& !figures.no_loss ==> lines[5 + c] == "Net PnL:          \x1b[31m$"@ + right_aligned(
                figures.net_pnl@,
                12,
            ) + " USDT\x1b[0m"@
            &&& lines[6 + c] == ""@
            &&& lines[7 + c] == "--- Trade Statistics ---"@
            &&& lines[8 + c] == "Total trades:     "@ + right_aligned(
                decimal_text(stats.total as nat),
                6,
            ) + "  ("@ + decimal_text(stats.buys@.len()) + " buys, "@ + decimal_text(
                stats.sells@.len(),
            ) + " sells)"@
            &&& lines[9 + c] == "Total volume:     $"@ + right_aligned(figures.total_volume@, 12)
            &&& stats.buys@.len() > 0 ==> {
                &&& lines[10 + c] == "Avg buy size:     $"@ + right_aligned(
                    figures.buys.average@,
                    12,
                )
                &&& lines[11 + c] == "Largest buy:      $"@ + right_aligned(
                    figures.buys.largest@,
                    12,
                )
                &&& lines[12 + c] == "Smallest buy:     $"@ + right_aligned(
                    figures.buys.smallest@,
                    12,
                )
            }
            &&& stats.sells@.len() > 0 ==> {
                &&& lines[10 + c + b] == "Avg sell size:    $"@ + right_aligned(
                    figures.sells.average@,
                    12,
                )
                &&& lines[11 + c + b] == "Largest sell:     $"@ + right_aligned(
                    figures.sells.largest@,
                    12,
                )
                &&& lines[12 + c + b] == "Smallest sell:    $"@ + right_aligned(
                    figures.sells.smallest@,
                    12,
                )
            }
            &&& lines[10 + c + b + s] == "Maker / Taker:    "@ + right_aligned(
                decimal_text(stats.maker_count as nat),
                6,
            ) + " / "@ + right_aligned(decimal_text(stats.taker_count as nat), 6) + "  ("@
                + figures.maker_percent@ + "% maker)"@
            &&& lines[11 + c + b + s] == ""@
            &&& lines[12 + c + b + s] == "Trade period:"@
            &&& lines[13 + c + b + s] == "  From: "@ + from
            &&& lines[14 + c + b + s] == "  To:   "@ + to
        }),
{
    let groups = stats.commissions@;
    let amounts = figures.commissions@;
    let n = groups.len();
    positive_are_counted(amounts, n);
    every_commission_is_reported_once(groups, amounts, n);
    let lines = trade_report_lines(stats, figures, from, to);
    let c = positive_commissions(amounts, n) as int;
    let pnl = pnl_lines(stats, figures);
    let rest = statistics_lines(stats, figures);
    assert(pnl.len() == 6 + c);
    assert(lines =~= pnl + rest + period_lines(from, to));
    assert(pnl[4 + c] == "─────────────────────────────"@);
    assert(lines.subrange(4, 4 + c) =~= deducted_lines(stats, figures).skip(4) + other_lines(
        groups,
        amounts,
        n,
    ));
    assert(pnl[5 + c] == net_line(figures));
}

/// The fields of a term are taken as they are.
pub proof fn fields_are_those_of_the_term(term: ProfitTerm)
    ensures
        term_fields(term).0 == term.added,
        term_fields(term).1 == term.amount,
        term_fields(term).2 == term.trades@,
{
}

} // verus!
