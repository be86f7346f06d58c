use arb_scanner::audit::{sample_hydrated, sample_listed, SpreadSample};
use arb_scanner::detector::SpreadDetector;
use arb_scanner::store::MarketStore;
use arb_scanner::types::{Category, Market, PriceChangeMsg};

fn market(id: &str) -> Market {
    Market {
        id: id.to_string(),
        question: "Q".to_string(),
        category: Category::Other,
        end_date_iso: None,
        total_volume_cents: None,
        yes_token_id: format!("{}-yes", id),
        no_token_id: format!("{}-no", id),
    }
}

fn hydrate(store: &mut MarketStore, id: &str, yes: (u32, u32), no: (u32, u32)) {
    store.update_token_price(&format!("{}-yes", id), yes.0, yes.1);
    store.update_token_price(&format!("{}-no", id), no.0, no.1);
}

#[test]
fn samples_each_hydrated_market_once() {
    let mut store = MarketStore::new();
    store.add_markets(vec![market("a"), market("b"), market("c")]);
    hydrate(&mut store, "a", (4500, 4400), (5400, 5300));
    hydrate(&mut store, "c", (1000, 900), (2000, 1900));
    store.update_token_price("b-yes", 5000, 4900);
    let mut got = sample_hydrated(&store, 5, usize::MAX);
    got.sort_by(|x, y| x.market_id.cmp(&y.market_id));
    assert_eq!(
        got,
        vec![
            SpreadSample { market_id: "a".to_string(), yes_ask: 4500, no_ask: 5400, yes_bid: 4400, no_bid: 5300 },
            SpreadSample { market_id: "c".to_string(), yes_ask: 1000, no_ask: 2000, yes_bid: 900, no_bid: 1900 },
        ]
    );
    assert_eq!(got[0].combined_ask(), 9900);
    assert_eq!(got[0].combined_bid(), 9700);
    assert_eq!(got[0].combined_mid_doubled(), 19_600);
    assert_eq!(got[0].spread(), 100);
    assert_eq!(got[1].spread(), 7000);
}

#[test]
fn sample_is_limited() {
    let mut store = MarketStore::new();
    store.add_markets(vec![market("a"), market("b"), market("c")]);
    for id in ["a", "b", "c"] {
        hydrate(&mut store, id, (4500, 4400), (5400, 5300));
    }
    assert_eq!(sample_hydrated(&store, 2, usize::MAX).len(), 2);
    assert_eq!(sample_hydrated(&store, 1, 20).len(), 1);
    assert!(sample_hydrated(&store, 0, usize::MAX).is_empty());
    assert!(sample_hydrated(&store, 5, 0).is_empty());
    assert_eq!(sample_hydrated(&store, 5, usize::MAX).len(), 3);
}

#[test]
fn readiness_is_reported_once_after_ten_seconds() {
    let mut store = MarketStore::new();
    store.add_markets(vec![market("a"), market("b")]);
    hydrate(&mut store, "a", (4500, 4400), (5400, 5300));
    let mut d = SpreadDetector::new();
    d.handle_price_change(
        &store,
        PriceChangeMsg { asset_id: "a-yes".to_string(), best_ask: 4500, best_bid: 4400, received_at_ns: 1 },
    );
    assert_eq!(d.maybe_log_readiness(&store, 9), None);
    let r = d.maybe_log_readiness(&store, 10).unwrap();
    assert_eq!(r.total_markets, 2);
    assert_eq!(r.hydrated_markets, 1);
    assert_eq!(r.price_msgs_processed, 1);
    assert_eq!(d.maybe_log_readiness(&store, 11), None);
    assert_eq!(d.maybe_log_readiness(&store, 1000), None);
}

#[test]
fn diagnostics_are_reported_every_thirty_seconds() {
    let store = MarketStore::new();
    let mut d = SpreadDetector::new();
    d.handle_price_change(
        &store,
        PriceChangeMsg { asset_id: "x".to_string(), best_ask: 1, best_bid: 1, received_at_ns: 1 },
    );
    assert_eq!(d.maybe_log_diagnostics(29), None);
    let diag = d.maybe_log_diagnostics(30).unwrap();
    assert_eq!(diag.price_msgs, 1);
    assert_eq!(diag.active, 0);
    assert_eq!(diag.tightest_spread, None);
}

#[test]
fn samples_follow_the_listing() {
    let mut store = MarketStore::new();
    store.add_markets(vec![market("a"), market("b"), market("c")]);
    for id in ["a", "b", "c"] {
        hydrate(&mut store, id, (4500, 4400), (5400, 5300));
    }
    let ids: Vec<String> =
        ["c-no", "zzz", "a-yes", "c-yes", "b-no", "a-no"].iter().map(|s| s.to_string()).collect();
    let names = |v: Vec<SpreadSample>| v.into_iter().map(|s| s.market_id).collect::<Vec<_>>();
    assert_eq!(names(sample_listed(&store, &ids, 5, usize::MAX)), vec!["c", "a", "b"]);
    assert_eq!(names(sample_listed(&store, &ids, 2, usize::MAX)), vec!["c", "a"]);
    assert_eq!(names(sample_listed(&store, &ids, 5, 4)), vec!["c", "a"]);
    assert_eq!(names(sample_listed(&store, &ids, 5, 1)), vec!["c"]);
    assert_eq!(names(sample_listed(&store, &ids, 5, 2)), vec!["c"]);
    assert!(sample_listed(&store, &ids, 5, 0).is_empty());
    assert!(sample_listed(&store, &ids, 0, 9).is_empty());
    assert_eq!(sample_hydrated(&store, 1, 1).len(), 1);
}
