use arb_scanner::book::OrderBook;
use arb_scanner::store::MarketStore;
use arb_scanner::types::{Category, Market};

fn test_market() -> Market {
    Market {
        id: "market1".to_string(),
        question: "Test".to_string(),
        category: Category::Other,
        end_date_iso: None,
        total_volume_cents: None,
        yes_token_id: "yes1".to_string(),
        no_token_id: "no1".to_string(),
    }
}

fn market(id: &str, yes: &str, no: &str) -> Market {
    Market {
        id: id.to_string(),
        question: "Q".to_string(),
        category: Category::Crypto,
        end_date_iso: Some("2030-01-01".to_string()),
        total_volume_cents: Some(12_345),
        yes_token_id: yes.to_string(),
        no_token_id: no.to_string(),
    }
}

const UNIT: u64 = 1_000_000;

#[test]
fn snapshot_sets_best_ask_and_bid() {
    let mut store = MarketStore::new();
    store.add_market(test_market());

    let result = store.apply_book_snapshot(
        "yes1",
        &[(5500, 100 * UNIT), (6000, 50 * UNIT)],
        &[(5400, 200 * UNIT), (5000, 75 * UNIT)],
    );
    assert!(result.is_some());
    let (best_ask, best_bid) = result.unwrap();
    assert_eq!(best_ask, 5500);
    assert_eq!(best_bid, 5400);
}

#[test]
fn price_change_removes_level_and_updates_best_ask() {
    let mut store = MarketStore::new();
    store.add_market(test_market());

    store.apply_book_snapshot("yes1", &[(5500, 100 * UNIT), (6000, 50 * UNIT)], &[]);

    let result = store.apply_book_changes("yes1", &[(5500, true, 0)]);
    assert!(result.is_some());
    let (best_ask, _) = result.unwrap();
    assert_eq!(best_ask, 6000);
}

#[test]
fn unknown_token_returns_none() {
    let mut store = MarketStore::new();
    store.add_market(test_market());

    let result = store.apply_book_snapshot("unknown_token", &[(5500, 100 * UNIT)], &[]);
    assert!(result.is_none());
}

#[test]
fn get_spread_inputs_requires_both_sides() {
    let mut store = MarketStore::new();
    store.add_market(test_market());

    store.apply_book_snapshot("yes1", &[(5500, 100 * UNIT)], &[]);
    assert!(store.get_spread_inputs("yes1").is_none());

    store.apply_book_snapshot("no1", &[(4600, 100 * UNIT)], &[]);
    let result = store.get_spread_inputs("yes1");
    assert!(result.is_some());
    let (_, yes_ask, no_ask, _, _) = result.unwrap();
    assert_eq!(yes_ask, 5500);
    assert_eq!(no_ask, 4600);
}

#[test]
fn unknown_token_changes_return_none_and_leave_cache() {
    let mut store = MarketStore::new();
    store.add_market(test_market());
    assert_eq!(store.apply_book_changes("ghost", &[(5000, true, UNIT)]), None);
    assert_eq!(store.best_prices("ghost"), None);
}

#[test]
fn snapshot_skips_zero_sizes_and_is_idempotent() {
    let mut store = MarketStore::new();
    store.add_market(test_market());
    let asks = [(5500, 0), (6000, 50 * UNIT)];
    let bids = [(5400, 0), (5000, 75 * UNIT)];
    assert_eq!(store.apply_book_snapshot("yes1", &asks, &bids), Some((6000, 5000)));
    assert_eq!(store.apply_book_snapshot("yes1", &asks, &bids), Some((6000, 5000)));
    assert_eq!(store.best_prices("yes1"), Some((6000, 5000)));
}

#[test]
fn empty_snapshot_returns_zero_bests_and_keeps_cache() {
    let mut store = MarketStore::new();
    store.add_market(test_market());
    store.apply_book_snapshot("yes1", &[(5500, UNIT)], &[(5400, UNIT)]);
    assert_eq!(store.apply_book_snapshot("yes1", &[], &[]), Some((0, 0)));
    assert_eq!(store.best_prices("yes1"), Some((5500, 5400)));
}

#[test]
fn empty_ask_side_does_not_replace_positive_cached_ask() {
    let mut store = MarketStore::new();
    store.add_market(test_market());
    store.apply_book_snapshot("yes1", &[(5500, UNIT)], &[(5400, UNIT)]);
    let r = store.apply_book_changes("yes1", &[(5500, true, 0)]);
    assert_eq!(r, Some((0, 5400)));
    assert_eq!(store.best_prices("yes1"), Some((5500, 5400)));
}

#[test]
fn bid_only_book_is_cached_when_no_positive_ask_was_cached() {
    let mut store = MarketStore::new();
    store.add_market(test_market());
    let r = store.apply_book_changes("yes1", &[(5400, false, UNIT)]);
    assert_eq!(r, Some((0, 5400)));
    assert_eq!(store.best_prices("yes1"), Some((0, 5400)));
    let r = store.apply_book_changes("yes1", &[(5300, false, UNIT), (5400, false, 0)]);
    assert_eq!(r, Some((0, 5300)));
    assert_eq!(store.best_prices("yes1"), Some((0, 5300)));
}

#[test]
fn changes_apply_in_order() {
    let mut store = MarketStore::new();
    store.add_market(test_market());
    let r = store.apply_book_changes(
        "yes1",
        &[(5500, true, UNIT), (5200, true, UNIT), (5200, true, 0), (5100, false, UNIT)],
    );
    assert_eq!(r, Some((5500, 5100)));
}

#[test]
fn remove_market_drops_tokens_books_and_cache() {
    let mut store = MarketStore::new();
    store.add_market(test_market());
    store.apply_book_snapshot("yes1", &[(5500, UNIT)], &[]);
    assert!(store.markets_contains("market1"));
    assert_eq!(
        store.token_ids_for_market("market1"),
        Some(vec!["yes1".to_string(), "no1".to_string()])
    );
    store.remove_market("market1");
    assert!(!store.markets_contains("market1"));
    assert_eq!(store.token_ids_for_market("market1"), None);
    assert_eq!(store.best_prices("yes1"), None);
    assert_eq!(store.get_market_for_token("yes1"), None);
    assert_eq!(store.apply_book_snapshot("yes1", &[(5500, UNIT)], &[]), None);
    assert_eq!(store.market_count(), 0);
    assert!(store.all_asset_ids().is_empty());
}

#[test]
fn remove_unknown_market_changes_nothing() {
    let mut store = MarketStore::new();
    store.add_market(test_market());
    store.remove_market("nope");
    assert_eq!(store.market_count(), 1);
    assert!(store.markets_contains("market1"));
}

#[test]
fn market_lookup_by_token() {
    let mut store = MarketStore::new();
    store.add_markets(vec![market("m1", "y1", "n1"), market("m2", "y2", "n2")]);
    assert_eq!(
        store.get_market_for_token("n2"),
        Some(("m2".to_string(), "y2".to_string(), "n2".to_string()))
    );
    assert_eq!(store.get_market_for_token("zzz"), None);
    let m = store.get_market("m1").unwrap();
    assert_eq!(m.yes_token_id, "y1");
    assert_eq!(m.total_volume_cents, Some(12_345));
    assert!(store.get_market("m3").is_none());
    assert_eq!(store.market_count(), 2);
    let mut ids = store.all_market_ids();
    ids.sort();
    assert_eq!(ids, vec!["m1".to_string(), "m2".to_string()]);
    let mut tokens = store.all_asset_ids();
    tokens.sort();
    assert_eq!(tokens, vec!["n1", "n2", "y1", "y2"]);
}

#[test]
fn pinning() {
    let mut store = MarketStore::new();
    assert!(!store.is_pinned("m1"));
    store.pin_market("m1");
    store.pin_market("m1");
    assert!(store.is_pinned("m1"));
    assert!(!store.is_pinned("m2"));
    assert_eq!(store.pinned_ids(), vec!["m1".to_string()]);
}

#[test]
fn hydrated_count_needs_positive_asks_on_both_sides() {
    let mut store = MarketStore::new();
    store.add_markets(vec![market("m1", "y1", "n1"), market("m2", "y2", "n2")]);
    assert_eq!(store.hydrated_market_count(), 0);
    store.apply_book_snapshot("y1", &[(5500, UNIT)], &[]);
    assert_eq!(store.hydrated_market_count(), 0);
    store.apply_book_snapshot("n1", &[], &[(4000, UNIT)]);
    assert_eq!(store.hydrated_market_count(), 0);
    store.apply_book_snapshot("n1", &[(4600, UNIT)], &[]);
    assert_eq!(store.hydrated_market_count(), 1);
    store.update_token_price("y2", 5000, 4900);
    store.update_token_price("n2", 5100, 5000);
    assert_eq!(store.hydrated_market_count(), 2);
}

#[test]
fn update_token_price_sets_cache_only() {
    let mut store = MarketStore::new();
    store.add_market(test_market());
    store.update_token_price("yes1", 4500, 4400);
    assert_eq!(store.best_prices("yes1"), Some((4500, 4400)));
    assert_eq!(store.apply_book_changes("yes1", &[]), Some((0, 0)));
    assert_eq!(store.best_prices("yes1"), Some((4500, 4400)));
}

#[test]
fn order_book_levels() {
    let mut book = OrderBook::new();
    assert_eq!(book.best_ask(), None);
    assert_eq!(book.best_bid(), None);
    book.apply_snapshot(&[(5500, 3), (5500, 7), (6000, 0)], &[(5000, 1), (5400, 2)]);
    assert_eq!(book.best_ask(), Some(5500));
    assert_eq!(book.ask_size(5500), Some(7));
    assert_eq!(book.ask_size(6000), None);
    assert_eq!(book.best_bid(), Some(5400));
    book.apply_change(5400, false, 0);
    assert_eq!(book.best_bid(), Some(5000));
    assert_eq!(book.bid_size(5400), None);
    book.apply_change(5450, false, 9);
    assert_eq!(book.best_prices(), (5500, 5450));
    book.apply_change(1, true, 0);
    assert_eq!(book.best_ask(), Some(5500));
}
