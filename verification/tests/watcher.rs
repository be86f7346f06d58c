use arb_scanner::catalog::GammaMarket;
use arb_scanner::control::handle_control;
use arb_scanner::refresh::refresh;
use arb_scanner::store::MarketStore;
use arb_scanner::types::{Category, ControlMsg, Market};
use arb_scanner::watcher::{
    is_id_wanted, is_wanted, match_prefix, pinned_candidate, KnownPinned, PinnedMarketWatcher,
};

fn market(id: &str) -> Market {
    Market {
        id: id.to_string(),
        question: format!("q {}", id),
        category: Category::Crypto,
        end_date_iso: None,
        total_volume_cents: None,
        yes_token_id: format!("{}-yes", id),
        no_token_id: format!("{}-no", id),
    }
}

fn known(id: &str, prefix: &str, end_ts: u64) -> KnownPinned {
    KnownPinned { market: market(id), prefix: prefix.to_string(), end_ts }
}

fn listing(id: &str, prefix: &str, end_ts: u64) -> (Market, String, u64) {
    (market(id), prefix.to_string(), end_ts)
}

fn wanted_ids(k: &Vec<KnownPinned>, now: u64) -> Vec<String> {
    (0..k.len()).filter(|i| is_wanted(k, *i, now)).map(|i| k[i].market.id.clone()).collect()
}

fn describe(msgs: &[ControlMsg]) -> Vec<String> {
    msgs.iter()
        .map(|m| match m {
            ControlMsg::Subscribe(ms) => {
                format!("sub:{}", ms.iter().map(|m| m.id.clone()).collect::<Vec<_>>().join(","))
            }
            ControlMsg::Unsubscribe(id) => format!("unsub:{}", id),
        })
        .collect()
}

const P: &str = "btc-updown-5m";

#[test]
fn current_market_and_pre_subscription_of_the_next() {
    let k = vec![known("C", P, 1600), known("A", P, 1000), known("B", P, 1300)];
    assert_eq!(wanted_ids(&k, 500), vec!["A"]);
    assert_eq!(wanted_ids(&k, 669), vec!["A"]);
    assert_eq!(wanted_ids(&k, 670), vec!["A", "B"]);
    assert_eq!(wanted_ids(&k, 1000), vec!["A", "B"]);
    assert_eq!(wanted_ids(&k, 1059), vec!["A", "B"]);
    assert_eq!(wanted_ids(&k, 1060), vec!["C", "B"]);
    assert_eq!(wanted_ids(&k, 1659), vec!["C"]);
    assert_eq!(wanted_ids(&k, 1660), Vec::<String>::new());
    assert!(is_id_wanted(&k, "A", 500));
    assert!(!is_id_wanted(&k, "B", 500));
    assert!(!is_id_wanted(&k, "Z", 500));
}

#[test]
fn prefixes_are_told_apart_and_ties_go_to_the_first_listed() {
    let k = vec![
        known("b2", "eth-updown-1h", 5000),
        known("a1", P, 1000),
        known("b1", "eth-updown-1h", 5000),
        known("a2", P, 1000),
    ];
    assert_eq!(wanted_ids(&k, 0), vec!["b2", "a1"]);
    assert_eq!(wanted_ids(&k, 700), vec!["b2", "a1", "a2"]);
    assert_eq!(wanted_ids(&k, 1370), vec!["b2", "b1"]);
}

#[test]
fn of_two_markets_with_the_same_end_the_first_listed_is_subscribed() {
    let mut store = MarketStore::new();
    let mut w = PinnedMarketWatcher::new();
    w.set_known(vec![listing("zz", P, 1000), listing("aa", P, 1000)], 0);
    let msgs = w.manage_subscriptions(&mut store, 0);
    assert_eq!(describe(&msgs), vec!["sub:zz"]);
    assert_eq!(w.subscribed_ids(), &vec!["zz".to_string()]);
    assert!(store.is_pinned("zz"));
    assert!(!store.markets_contains("aa"));
    let msgs = w.manage_subscriptions(&mut store, 700);
    assert_eq!(describe(&msgs), vec!["sub:aa"]);
    let msgs = w.manage_subscriptions(&mut store, 1060);
    assert_eq!(describe(&msgs), vec!["unsub:zz", "unsub:aa"]);
}

#[test]
fn watcher_hands_over_from_one_market_to_the_next() {
    let mut store = MarketStore::new();
    let mut w = PinnedMarketWatcher::new();
    assert!(w.needs_fetch(30));
    assert!(!w.needs_fetch(29));
    w.set_known(vec![listing("A", P, 1000), listing("B", P, 1300), listing("A", P, 9999)], 500);
    assert_eq!(w.known_count(), 2);
    assert!(!w.needs_fetch(529));
    assert!(w.needs_fetch(530));
    assert!(!w.needs_fetch(100));

    let msgs = w.manage_subscriptions(&mut store, 500);
    assert_eq!(describe(&msgs), vec!["sub:A"]);
    assert!(store.markets_contains("A"));
    assert!(store.is_pinned("A"));
    assert!(!store.markets_contains("B"));
    assert_eq!(w.subscribed_ids(), &vec!["A".to_string()]);

    assert!(w.manage_subscriptions(&mut store, 600).is_empty());

    let msgs = w.manage_subscriptions(&mut store, 700);
    assert_eq!(describe(&msgs), vec!["sub:B"]);
    assert!(store.is_pinned("B"));
    assert_eq!(w.subscribed_ids(), &vec!["A".to_string(), "B".to_string()]);

    let msgs = w.manage_subscriptions(&mut store, 1060);
    assert_eq!(describe(&msgs), vec!["unsub:A"]);
    assert_eq!(w.subscribed_ids(), &vec!["B".to_string()]);
    assert!(store.markets_contains("A"), "the market stays until its unsubscription is handled");
    for m in msgs {
        let frame = handle_control(&mut store, m);
        assert_eq!(
            frame.as_deref(),
            Some(r#"{"assets_ids":["A-yes","A-no"],"operation":"unsubscribe"}"#)
        );
    }
    assert!(!store.markets_contains("A"));

    w.set_known(vec![listing("C", P, 1600)], 1100);
    let msgs = w.manage_subscriptions(&mut store, 1100);
    assert_eq!(describe(&msgs), vec!["sub:C", "unsub:B"]);
    assert_eq!(w.subscribed_ids(), &vec!["C".to_string()]);
}

#[test]
fn slug_prefixes() {
    let prefixes = vec!["eth-updown-15m".to_string(), "btc-updown".to_string(), "btc-updown-5m".to_string()];
    assert_eq!(match_prefix("btc-updown-5m-1772068500", &prefixes), Some(1));
    assert_eq!(match_prefix("eth-updown-15m-1", &prefixes), Some(0));
    assert_eq!(match_prefix("eth-updown-15", &prefixes), None);
    assert_eq!(match_prefix("", &prefixes), None);
    assert_eq!(match_prefix("x", &vec!["".to_string()]), Some(0));
    assert_eq!(match_prefix("x", &Vec::new()), None);
}

#[test]
fn rolling_market_listing() {
    let g = GammaMarket {
        condition_id: Some("0x1".to_string()),
        token_ids: vec!["u".to_string(), "d".to_string()],
        outcomes: vec!["Up".to_string(), "Down".to_string()],
        question: Some("BTC up?".to_string()),
        end_date_iso: None,
        category: None,
        volume_24h_cents: 0,
        liquidity_cents: 0,
        total_volume_cents: None,
    };
    let prefixes = vec!["btc-updown-5m".to_string()];
    let (m, prefix, end_ts) = pinned_candidate(&g, "btc-updown-5m-1772068500", &prefixes).unwrap();
    assert_eq!(m.id, "0x1");
    assert_eq!(m.yes_token_id, "u");
    assert_eq!(prefix, "btc-updown-5m");
    assert_eq!(end_ts, 1_772_068_500);
    assert!(pinned_candidate(&g, "sol-updown-5m-1772068500", &prefixes).is_none());
    let mut bad = g;
    bad.condition_id = None;
    assert!(pinned_candidate(&bad, "btc-updown-5m-1772068500", &prefixes).is_none());
}

#[test]
fn refresh_spares_pinned_markets_and_adds_new_ones() {
    let mut store = MarketStore::new();
    store.add_markets(vec![market("keep"), market("gone"), market("pinned")]);
    store.pin_market("pinned");
    let fresh = vec![market("keep"), market("new1"), market("new2")];
    let plan = refresh(&mut store, &fresh);
    assert_eq!(plan.leaving, vec!["gone".to_string()]);
    assert_eq!(plan.joining.iter().map(|m| m.id.clone()).collect::<Vec<_>>(), vec!["new1", "new2"]);
    assert_eq!(plan.added(), 2);
    assert_eq!(plan.removed(), 1);
    assert_eq!(plan.unchanged, 2);
    assert!(store.markets_contains("new1"));
    assert!(store.markets_contains("new2"));
    assert!(store.markets_contains("gone"), "stays until its unsubscription is handled");
    let msgs = plan.messages();
    assert_eq!(describe(&msgs), vec!["unsub:gone", "sub:new1,new2"]);
    let mut frames = Vec::new();
    for m in msgs {
        frames.push(handle_control(&mut store, m));
    }
    assert_eq!(
        frames[0].as_deref(),
        Some(r#"{"assets_ids":["gone-yes","gone-no"],"operation":"unsubscribe"}"#)
    );
    assert_eq!(
        frames[1].as_deref(),
        Some(r#"{"assets_ids":["new1-yes","new1-no","new2-yes","new2-no"],"type":"market"}"#)
    );
    assert!(!store.markets_contains("gone"));
    assert!(store.markets_contains("pinned"));
    assert_eq!(store.market_count(), 4);
}

#[test]
fn refresh_with_nothing_to_do() {
    let mut store = MarketStore::new();
    store.add_markets(vec![market("a"), market("b")]);
    let plan = refresh(&mut store, &vec![market("b"), market("a")]);
    assert_eq!(plan.added(), 0);
    assert_eq!(plan.removed(), 0);
    assert_eq!(plan.unchanged, 2);
    assert!(plan.messages().is_empty());

    let plan = refresh(&mut store, &Vec::new());
    let mut leaving = plan.leaving.clone();
    leaving.sort();
    assert_eq!(leaving, vec!["a".to_string(), "b".to_string()]);
    assert_eq!(plan.unchanged, 0);
    assert_eq!(plan.messages().len(), 2);
}
