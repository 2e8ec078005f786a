use binance_pnl::body::{body_report, BodyReading};
use binance_pnl::request::Endpoint;
use binance_pnl::trades::{
    is_stablecoin, profit_terms, trade_report, trade_report_for_period, trade_stats, BinanceTrade,
    CommissionFigure, SideFigures, TradeAmount, TradeFigures,
};

fn trade(time: u64, is_buyer: bool, is_maker: bool, commission_asset: &str) -> BinanceTrade {
    BinanceTrade {
        symbol: "BTCUSDT".to_string(),
        id: time,
        order_id: 0,
        price: "1".to_string(),
        qty: "1".to_string(),
        quote_qty: "1".to_string(),
        commission: "0.1".to_string(),
        commission_asset: commission_asset.to_string(),
        time,
        is_buyer,
        is_maker,
        is_best_match: false,
    }
}

fn history() -> Vec<BinanceTrade> {
    vec![
        trade(1_704_100_000_000, true, true, "BNB"),
        trade(1_704_067_200_000, false, false, "USDT"),
        trade(1_705_329_121_000, true, true, "BNB"),
        trade(1_704_200_000_000, false, true, "USDC"),
        trade(1_704_200_000_000, true, false, "USDT"),
    ]
}

fn text(t: &str) -> String {
    t.to_string()
}

fn commission(positive: bool, amount: &str) -> CommissionFigure {
    CommissionFigure { positive, amount: text(amount) }
}

fn figures(no_loss: bool) -> TradeFigures {
    TradeFigures {
        total_bought: text("12430.20"),
        total_sold: text("12862.70"),
        net_pnl: text(if no_loss { "+420.00" } else { "-1.00" }),
        no_loss,
        total_volume: text("25292.90"),
        buys: SideFigures { average: text("4143.40"), largest: text("9000.00"), smallest: text("1.00") },
        sells: SideFigures { average: text("6431.35"), largest: text("7000.00"), smallest: text("2.00") },
        maker_percent: text("60.0"),
        commissions: vec![
            commission(true, "0.20000000"),
            commission(true, "12.5000"),
            commission(false, "0.0000"),
        ],
    }
}

#[test]
fn an_empty_history_has_no_statistics() {
    assert!(trade_stats(&[]).is_none());
}

#[test]
fn a_history_splits_into_sides_and_groups() {
    let stats = trade_stats(&history()).unwrap();
    assert_eq!(stats.symbol, "BTCUSDT");
    assert_eq!(stats.total, 5);
    assert_eq!(stats.buys, [0, 2, 4]);
    assert_eq!(stats.sells, [1, 3]);
    assert_eq!((stats.maker_count, stats.taker_count), (3, 2));
    assert_eq!(stats.first_time, 1_704_067_200_000);
    assert_eq!(stats.last_time, 1_705_329_121_000);
    let groups: Vec<(&str, bool, &[usize])> = stats
        .commissions
        .iter()
        .map(|g| (g.asset.as_str(), g.stable, g.trades.as_slice()))
        .collect();
    assert_eq!(
        groups,
        [
            ("BNB", false, &[0usize, 2][..]),
            ("USDT", true, &[1, 4][..]),
            ("USDC", true, &[3][..]),
        ]
    );
}

#[test]
fn every_trade_is_counted_once() {
    let stats = trade_stats(&history()).unwrap();
    assert_eq!(stats.buys.len() + stats.sells.len(), stats.total);
    assert_eq!(stats.maker_count + stats.taker_count, stats.total);
    let grouped: usize = stats.commissions.iter().map(|g| g.trades.len()).sum();
    assert_eq!(grouped, stats.total);
}

#[test]
fn three_assets_are_stable() {
    assert!(is_stablecoin("USDT") && is_stablecoin("USDC") && is_stablecoin("BUSD"));
    assert!(!is_stablecoin("BNB") && !is_stablecoin("usdt") && !is_stablecoin(""));
}

#[test]
fn a_profit_is_reported() {
    let stats = trade_stats(&history()).unwrap();
    assert_eq!(
        trade_report(&stats, &figures(true)).into_lines(),
        [
            "",
            "--- Computed PnL (BTCUSDT) ---",
            "Total bought:     $    12430.20",
            "Total sold:       $    12862.70",
            "Commission (USDT):  $     12.5000",
            "Commission (BNB):      0.20000000 (not deducted – valued separately)",
            "─────────────────────────────",
            "Net PnL:          \x1b[32m$     +420.00 USDT ✓\x1b[0m",
            "",
            "--- Trade Statistics ---",
            "Total trades:          5  (3 buys, 2 sells)",
            "Total volume:     $    25292.90",
            "Avg buy size:     $     4143.40",
            "Largest buy:      $     9000.00",
            "Smallest buy:     $        1.00",
            "Avg sell size:    $     6431.35",
            "Largest sell:     $     7000.00",
            "Smallest sell:    $        2.00",
            "Maker / Taker:         3 /      2  (60.0% maker)",
            "",
            "Trade period:",
            "  From: 2024-01-01 00:00:00 UTC",
            "  To:   2024-01-15 14:32:01 UTC",
        ]
    );
}

#[test]
fn a_loss_is_reported_without_a_check_mark() {
    let stats = trade_stats(&history()).unwrap();
    let lines = trade_report_for_period(&stats, &figures(false), "a", "b").into_lines();
    assert_eq!(lines[7], "Net PnL:          \x1b[31m$       -1.00 USDT\x1b[0m");
    assert_eq!(lines[21..], ["  From: a", "  To:   b"]);
}

#[test]
fn a_side_without_trades_has_no_sizes() {
    let stats = trade_stats(&[trade(0, true, false, "BUSD")]).unwrap();
    let mut amounts = figures(true);
    amounts.commissions = vec![commission(true, "1.0000")];
    let lines = body_report(Endpoint::Trades, "", BodyReading::Trades(&stats, &amounts)).into_lines();
    assert_eq!(lines[2], "Number of trades: 1");
    assert_eq!(lines[7], "Commission (BUSD):  $      1.0000");
    assert!(lines.iter().any(|l| l.starts_with("Avg buy size")));
    assert!(!lines.iter().any(|l| l.contains("sell size")));
}

#[test]
fn the_order_of_the_trades_does_not_matter() {
    let one = history();
    let mut other = history();
    other.reverse();
    let s = trade_stats(&one).unwrap();
    let t = trade_stats(&other).unwrap();
    assert_eq!((s.total, s.buys.len(), s.sells.len()), (t.total, t.buys.len(), t.sells.len()));
    assert_eq!((s.maker_count, s.taker_count), (t.maker_count, t.taker_count));
    assert_eq!((s.first_time, s.last_time), (t.first_time, t.last_time));
    assert_eq!(s.commissions.len(), t.commissions.len());
    for g in &s.commissions {
        let h = t.commissions.iter().find(|h| h.asset == g.asset).unwrap();
        let mut held: Vec<u64> = g.trades.iter().map(|&i| one[i].id).collect();
        let mut also: Vec<u64> = h.trades.iter().map(|&i| other[i].id).collect();
        held.sort();
        also.sort();
        assert_eq!((g.stable, held), (h.stable, also));
    }
}

#[test]
fn the_order_of_the_trades_shows_only_in_other_commissions() {
    let mut one = history();
    one.push(trade(1_704_300_000_000, true, false, "ETH"));
    let two = {
        let mut trades = history();
        trades.insert(0, trade(1_704_300_000_000, true, false, "ETH"));
        trades
    };
    let amount = |asset: &str| commission(true, if asset == "BNB" { "0.2" } else { "0.1" });
    let report = |trades: &[BinanceTrade]| {
        let stats = trade_stats(trades).unwrap();
        let mut amounts = figures(true);
        amounts.commissions = stats.commissions.iter().map(|g| amount(&g.asset)).collect();
        trade_report(&stats, &amounts).into_lines()
    };
    let (a, b) = (report(&one), report(&two));
    assert_eq!(a[..6], b[..6]);
    assert_eq!((&a[6], &a[7]), (&b[7], &b[6]));
    assert_eq!(a[8..], b[8..]);
}

#[test]
fn the_profit_has_its_terms() {
    let terms = profit_terms(&trade_stats(&history()).unwrap());
    let fields: Vec<(bool, TradeAmount, &[usize])> =
        terms.iter().map(|t| (t.added, t.amount, t.trades.as_slice())).collect();
    assert_eq!(
        fields,
        [
            (true, TradeAmount::Quote, &[1usize, 3][..]),
            (false, TradeAmount::Quote, &[0, 2, 4][..]),
            (false, TradeAmount::Commission, &[1, 4][..]),
            (false, TradeAmount::Commission, &[3][..]),
        ]
    );
}
