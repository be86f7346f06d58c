use arb_scanner::ingest::{apply_event, check_divergence, parse_levels, FeedIngestor, Routed};
use arb_scanner::messages::{BookChange, BookLevel, ParsedFrame};
use arb_scanner::store::MarketStore;
use arb_scanner::types::{Category, Market, PriceChangeMsg, TradeMsg};

fn store_with_market() -> MarketStore {
    let mut store = MarketStore::new();
    store.add_market(Market {
        id: "market1".to_string(),
        question: "Test".to_string(),
        category: Category::Other,
        end_date_iso: None,
        total_volume_cents: None,
        yes_token_id: "yes1".to_string(),
        no_token_id: "no1".to_string(),
    });
    store
}

fn level(price: &str, size: &str) -> BookLevel {
    BookLevel { price: price.to_string(), size: size.to_string() }
}

fn snapshot(asset: &str, asks: Vec<BookLevel>, bids: Vec<BookLevel>) -> ParsedFrame {
    ParsedFrame::BookSnapshot { asset_id: asset.to_string(), asks, bids }
}

fn change(asset: &str, price: &str, side: &str, size: &str, bid: Option<u32>, ask: Option<u32>) -> ParsedFrame {
    ParsedFrame::BookPriceChange {
        asset_id: asset.to_string(),
        change: BookChange { price: price.to_string(), side: side.to_string(), size: size.to_string() },
        best_bid: bid,
        best_ask: ask,
    }
}

fn price(asset: &str, ask: u32, bid: u32, at: u64, diverged: bool) -> Routed {
    Routed::Price {
        msg: PriceChangeMsg { asset_id: asset.to_string(), best_ask: ask, best_bid: bid, received_at_ns: at },
        diverged,
    }
}

#[test]
fn levels_that_cannot_be_read_are_left_out() {
    let levels = vec![level("0.55", "100"), level("x", "1"), level("0.60", ""), level("0.61", "0")];
    assert_eq!(parse_levels(&levels), vec![(5500, 100_000_000), (6100, 0)]);
}

#[test]
fn snapshot_routes_best_prices() {
    let mut store = store_with_market();
    let r = apply_event(
        &mut store,
        snapshot("yes1", vec![level("0.55", "100"), level("0.60", "50")], vec![level("0.54", "200")]),
        7,
    );
    assert_eq!(r, price("yes1", 5500, 5400, 7, false));
    assert_eq!(store.best_prices("yes1"), Some((5500, 5400)));
}

#[test]
fn snapshot_without_asks_or_for_unknown_token_routes_nothing() {
    let mut store = store_with_market();
    assert_eq!(
        apply_event(&mut store, snapshot("yes1", vec![], vec![level("0.54", "200")]), 7),
        Routed::Nothing
    );
    assert_eq!(store.best_prices("yes1"), Some((0, 5400)));
    assert_eq!(
        apply_event(&mut store, snapshot("zzz", vec![level("0.55", "100")], vec![]), 7),
        Routed::Nothing
    );
    assert_eq!(store.best_prices("zzz"), None);
}

#[test]
fn book_level_update_moves_best_ask() {
    let mut store = store_with_market();
    apply_event(&mut store, snapshot("yes1", vec![level("0.55", "100"), level("0.60", "50")], vec![]), 1);
    let r = apply_event(&mut store, change("yes1", "0.55", "SELL", "0", None, None), 2);
    assert_eq!(r, price("yes1", 6000, 0, 2, false));
}

#[test]
fn local_book_wins_over_server_bests_and_divergence_is_flagged() {
    let mut store = store_with_market();
    apply_event(&mut store, snapshot("yes1", vec![level("0.55", "100")], vec![level("0.50", "1")]), 1);
    let r = apply_event(&mut store, change("yes1", "0.53", "SELL", "5", Some(5000), Some(5300)), 2);
    assert_eq!(r, price("yes1", 5300, 5000, 2, false));
    let r = apply_event(&mut store, change("yes1", "0.52", "BUY", "5", Some(5200), Some(5400)), 3);
    assert_eq!(r, price("yes1", 5300, 5200, 3, true));
    let r = apply_event(&mut store, change("yes1", "0.521", "BUY", "5", Some(5200), Some(5300)), 4);
    assert_eq!(r, price("yes1", 5300, 5210, 4, false));
    let r = apply_event(&mut store, change("yes1", "0.5221", "BUY", "5", Some(5210), Some(5300)), 5);
    assert_eq!(r, price("yes1", 5300, 5221, 5, true));
}

#[test]
fn divergence_needs_both_server_prices() {
    assert!(!check_divergence(5000, 4000, Some(9000), None));
    assert!(!check_divergence(5000, 4000, None, Some(1)));
    assert!(!check_divergence(5000, 4000, Some(5010), Some(3990)));
    assert!(check_divergence(5000, 4000, Some(5011), Some(4000)));
    assert!(check_divergence(5000, 4000, Some(5000), Some(3989)));
}

#[test]
fn side_other_than_sell_is_the_bid_side() {
    let mut store = store_with_market();
    apply_event(&mut store, snapshot("yes1", vec![level("0.55", "100")], vec![]), 1);
    let r = apply_event(&mut store, change("yes1", "0.40", "sell", "5", None, None), 2);
    assert_eq!(r, price("yes1", 5500, 4000, 2, false));
}

#[test]
fn unreadable_change_falls_back_to_cached_prices() {
    let mut store = store_with_market();
    assert_eq!(apply_event(&mut store, change("yes1", "?", "SELL", "5", None, None), 2), Routed::Nothing);
    apply_event(&mut store, snapshot("yes1", vec![level("0.55", "100")], vec![level("0.50", "1")]), 1);
    let r = apply_event(&mut store, change("yes1", "0.40", "SELL", "?", None, None), 2);
    assert_eq!(r, price("yes1", 5500, 5000, 2, false));
    let r = apply_event(&mut store, change("nobody", "0.40", "SELL", "1", None, None), 2);
    assert_eq!(r, Routed::Nothing);
}

#[test]
fn change_that_empties_the_asks_routes_nothing() {
    let mut store = store_with_market();
    apply_event(&mut store, snapshot("yes1", vec![level("0.55", "100")], vec![]), 1);
    assert_eq!(
        apply_event(&mut store, change("yes1", "0.55", "SELL", "0", None, None), 2),
        Routed::Nothing
    );
    assert_eq!(store.best_prices("yes1"), Some((5500, 0)));
}

#[test]
fn trade_is_routed_as_it_is() {
    let mut store = store_with_market();
    let r = apply_event(
        &mut store,
        ParsedFrame::LastTradePrice { asset_id: "whoever".to_string(), price: 5700 },
        9,
    );
    assert_eq!(
        r,
        Routed::Trade(TradeMsg { asset_id: "whoever".to_string(), price: 5700, received_at_ns: 9 })
    );
}

#[test]
fn frame_handling_counts_and_keeps_order() {
    let mut store = store_with_market();
    let mut ingestor = FeedIngestor::new();
    let events = vec![
        snapshot("yes1", vec![level("0.55", "100")], vec![]),
        snapshot("no1", vec![], vec![]),
        ParsedFrame::LastTradePrice { asset_id: "yes1".to_string(), price: 5500 },
        change("yes1", "0.54", "SELL", "1", None, None),
    ];
    let (report, routed) = ingestor.handle_frame(&mut store, events, 11);
    assert_eq!(report, None);
    assert_eq!(
        routed,
        vec![
            price("yes1", 5500, 0, 11, false),
            Routed::Trade(TradeMsg { asset_id: "yes1".to_string(), price: 5500, received_at_ns: 11 }),
            price("yes1", 5400, 0, 11, false),
        ]
    );
    let c = ingestor.counters();
    assert_eq!(c.total_frames, 1);
    assert_eq!(c.snapshots, 2);
    assert_eq!(c.price_changes, 1);
    assert_eq!(c.trades, 1);
    assert_eq!(c.routed_price_msgs, 2);
}

#[test]
fn counters_are_reported_every_500_frames() {
    let mut store = store_with_market();
    let mut ingestor = FeedIngestor::new();
    let mut reports = Vec::new();
    for i in 1..=1000u64 {
        if let Some(c) = ingestor.begin_frame() {
            reports.push((i, c.total_frames));
        }
    }
    assert_eq!(reports, vec![(500, 500), (1000, 1000)]);
    let (report, routed) = ingestor.handle_frame(&mut store, vec![], 1);
    assert_eq!(report, None);
    assert!(routed.is_empty());
    assert_eq!(ingestor.counters().total_frames, 1001);
}
