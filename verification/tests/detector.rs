use arb_scanner::detector::{emit_close, open_event, ActiveWindow, SpreadDetector};
use arb_scanner::store::MarketStore;
use arb_scanner::types::{
    Category, CloseReason, Market, OpenDurationClass, PriceChangeMsg, SpreadCategory, TradeMsg,
    WindowEvent,
};

fn make_store_with_market() -> MarketStore {
    let mut store = MarketStore::new();
    store.add_market(Market {
        id: "market1".to_string(),
        question: "Test market".to_string(),
        category: Category::Other,
        end_date_iso: None,
        total_volume_cents: None,
        yes_token_id: "yes1".to_string(),
        no_token_id: "no1".to_string(),
    });
    store
}

fn price_msg_at(asset_id: &str, best_ask: u32, at_ns: u64) -> PriceChangeMsg {
    PriceChangeMsg {
        asset_id: asset_id.to_string(),
        best_ask,
        best_bid: best_ask - 100,
        received_at_ns: at_ns,
    }
}

fn price_msg(asset_id: &str, best_ask: u32) -> PriceChangeMsg {
    price_msg_at(asset_id, best_ask, 1_000)
}

fn trade(asset_id: &str, price: u32) -> TradeMsg {
    TradeMsg { asset_id: asset_id.to_string(), price, received_at_ns: 1_000 }
}

/// Feeds the YES asks in order after seeding NO at 0.45, and collects what is emitted.
fn feed(store: &MarketStore, detector: &mut SpreadDetector, yes_asks: &[u32]) -> Vec<WindowEvent> {
    let mut out = Vec::new();
    for &a in yes_asks {
        if let Some(e) = detector.handle_price_change(store, price_msg("yes1", a)) {
            out.push(e);
        }
    }
    out
}

#[test]
fn single_tick_does_not_fire_open_event() {
    let store = make_store_with_market();
    let mut detector = SpreadDetector::new();
    let mut events = Vec::new();

    events.extend(detector.handle_price_change(&store, price_msg("no1", 4500)));
    events.extend(detector.handle_price_change(&store, price_msg("yes1", 4500)));
    events.extend(detector.handle_price_change(&store, price_msg("yes1", 5500)));

    let mut it = events.into_iter();
    let event = it.next().expect("expected Close event");
    match event {
        WindowEvent::Close(c) => {
            assert_eq!(c.observables.tick_count, 1);
            assert_eq!(c.open_duration_class, OpenDurationClass::SingleTick);
        }
        WindowEvent::Open(_) => panic!("single-tick window must not fire Open"),
    }
    assert!(it.next().is_none(), "no further events expected");
}

#[test]
fn multi_tick_fires_open_then_close() {
    let store = make_store_with_market();
    let mut detector = SpreadDetector::new();

    assert!(detector.handle_price_change(&store, price_msg("no1", 4500)).is_none());
    assert!(detector.handle_price_change(&store, price_msg("yes1", 4500)).is_none());
    let event = detector
        .handle_price_change(&store, price_msg("yes1", 4500))
        .expect("expected Open event");
    assert!(matches!(event, WindowEvent::Open(_)));

    let event = detector
        .handle_price_change(&store, price_msg("yes1", 5600))
        .expect("expected Close event");
    assert!(matches!(event, WindowEvent::Close(_)));
}

#[test]
fn scenario_single_tick_noise() {
    let store = make_store_with_market();
    let mut d = SpreadDetector::new();
    assert!(d.handle_price_change(&store, price_msg("no1", 4500)).is_none());
    let events = feed(&store, &mut d, &[4500, 5500]);
    assert_eq!(events.len(), 1);
    match &events[0] {
        WindowEvent::Close(c) => {
            assert_eq!(c.observables.tick_count, 1);
            assert_eq!(c.open_duration_class, OpenDurationClass::SingleTick);
            assert_eq!(c.close_reason, None);
            assert_eq!(c.opportunity_class, 0);
            assert_eq!(c.spread, 1000);
            assert_eq!(c.market_id, "market1");
        }
        WindowEvent::Open(_) => panic!("no open record expected"),
    }
    assert_eq!(d.active_window("market1"), None);
}

#[test]
fn scenario_multi_tick_gradual_absorption() {
    let store = make_store_with_market();
    let mut d = SpreadDetector::new();
    assert!(d.handle_price_change(&store, price_msg("no1", 4500)).is_none());
    assert!(d.handle_price_change(&store, price_msg("yes1", 4500)).is_none());
    let open = d.handle_price_change(&store, price_msg("yes1", 4500)).unwrap();
    match &open {
        WindowEvent::Open(o) => {
            assert_eq!(o.spread, 1000);
            assert_eq!(o.yes_ask, 4500);
            assert_eq!(o.no_ask, 4500);
            assert_eq!(o.spread_category, SpreadCategory::Large);
        }
        WindowEvent::Close(_) => panic!("expected the open record"),
    }
    d.handle_trade(&store, trade("yes1", 4500));
    assert!(d.handle_price_change(&store, price_msg("yes1", 4600)).is_none());
    d.handle_trade(&store, trade("yes1", 4600));
    let close = d.handle_price_change(&store, price_msg("yes1", 5600)).unwrap();
    match close {
        WindowEvent::Close(c) => {
            assert!(c.observables.trade_event_fired);
            assert!(c.observables.volume_change_ticks >= 2);
            assert_eq!(c.close_reason, Some(CloseReason::VolumeSpikeGradual));
            assert_eq!(c.opportunity_class, 1);
            assert_eq!(c.open_duration_class, OpenDurationClass::MultiTick);
        }
        WindowEvent::Open(_) => panic!("expected the close record"),
    }
}

#[test]
fn scenario_single_trade_is_instant_spike() {
    let store = make_store_with_market();
    let mut d = SpreadDetector::new();
    d.handle_price_change(&store, price_msg("no1", 4500));
    let events = feed(&store, &mut d, &[4500, 4500]);
    assert_eq!(events.len(), 1);
    d.handle_trade(&store, trade("no1", 4500));
    let close = d.handle_price_change(&store, price_msg("yes1", 5600)).unwrap();
    match close {
        WindowEvent::Close(c) => {
            assert_eq!(c.observables.volume_change_ticks, 1);
            assert_eq!(c.close_reason, Some(CloseReason::VolumeSpikeInstant));
            assert_eq!(c.opportunity_class, 3);
        }
        WindowEvent::Open(_) => panic!("expected the close record"),
    }
}

#[test]
fn scenario_price_drift_close() {
    let store = make_store_with_market();
    let mut d = SpreadDetector::new();
    d.handle_price_change(&store, price_msg("no1", 4500));
    let events = feed(&store, &mut d, &[4500, 4500, 4600, 4700, 5600]);
    assert_eq!(events.len(), 2);
    assert!(matches!(events[0], WindowEvent::Open(_)));
    match &events[1] {
        WindowEvent::Close(c) => {
            assert_eq!(c.close_reason, Some(CloseReason::PriceDrift));
            assert_eq!(c.opportunity_class, 2);
            assert!(c.observables.price_shifted);
            assert!(!c.observables.trade_event_fired);
            assert_eq!(c.observables.tick_count, 4);
        }
        WindowEvent::Open(_) => panic!("expected the close record"),
    }
}

#[test]
fn scenario_order_vanished() {
    let store = make_store_with_market();
    let mut d = SpreadDetector::new();
    d.handle_price_change(&store, price_msg("no1", 4500));
    let events = feed(&store, &mut d, &[4500, 4500, 5500]);
    assert_eq!(events.len(), 2);
    assert!(matches!(events[0], WindowEvent::Open(_)));
    match &events[1] {
        WindowEvent::Close(c) => {
            assert_eq!(c.close_reason, Some(CloseReason::OrderVanished));
            assert_eq!(c.opportunity_class, 4);
            assert!(!c.observables.price_shifted);
            assert_eq!(c.observables.tick_count, 2);
        }
        WindowEvent::Open(_) => panic!("expected the close record"),
    }
}

#[test]
fn one_drift_tick_is_not_a_price_shift() {
    let store = make_store_with_market();
    let mut d = SpreadDetector::new();
    d.handle_price_change(&store, price_msg("no1", 4500));
    let events = feed(&store, &mut d, &[4500, 4600, 5600]);
    match &events[1] {
        WindowEvent::Close(c) => {
            assert!(!c.observables.price_shifted);
            assert_eq!(c.close_reason, Some(CloseReason::OrderVanished));
        }
        WindowEvent::Open(_) => panic!("expected the close record"),
    }
}

#[test]
fn window_invariant_on_every_tick() {
    let store = make_store_with_market();
    let mut d = SpreadDetector::new();
    d.handle_price_change(&store, price_msg("no1", 4500));
    for (i, a) in [4500u32, 4400, 4300, 4200].iter().enumerate() {
        d.handle_price_change(&store, price_msg("yes1", *a));
        let w = d.active_window("market1").unwrap();
        assert_eq!(w.tick_count as usize, i + 1);
        assert!(w.tick_count >= 1);
        assert_eq!(w.pending, w.tick_count < 2);
        assert_eq!(w.yes_ask, 4500);
        assert_eq!(w.spread, 1000);
    }
}

#[test]
fn cache_follows_messages_in_order_even_for_unknown_tokens() {
    let store = make_store_with_market();
    let mut d = SpreadDetector::new();
    assert!(d.handle_price_change(&store, price_msg("stranger", 1234)).is_none());
    assert_eq!(d.local_price("stranger"), Some((1234, 1134)));
    d.handle_price_change(&store, price_msg("yes1", 4500));
    d.handle_price_change(&store, price_msg("yes1", 4700));
    assert_eq!(d.local_price("yes1"), Some((4700, 4600)));
    assert_eq!(d.local_price("no1"), None);
    d.handle_trade(&store, trade("yes1", 1));
    assert_eq!(d.local_price("yes1"), Some((4700, 4600)));
}

#[test]
fn detector_never_reads_prices_from_the_store() {
    let mut store = make_store_with_market();
    store.update_token_price("no1", 1000, 900);
    let mut d = SpreadDetector::new();
    assert!(d.handle_price_change(&store, price_msg("yes1", 1000)).is_none());
    assert_eq!(d.active_window("market1"), None);
}

#[test]
fn zero_ask_gives_no_tick() {
    let store = make_store_with_market();
    let mut d = SpreadDetector::new();
    d.handle_price_change(
        &store,
        PriceChangeMsg { asset_id: "no1".to_string(), best_ask: 0, best_bid: 10, received_at_ns: 1 },
    );
    assert!(d.handle_price_change(&store, price_msg("yes1", 4500)).is_none());
    assert_eq!(d.active_window("market1"), None);
}

#[test]
fn spread_of_exactly_zero_is_no_window() {
    let store = make_store_with_market();
    let mut d = SpreadDetector::new();
    d.handle_price_change(&store, price_msg("no1", 4500));
    assert!(d.handle_price_change(&store, price_msg("yes1", 5500)).is_none());
    assert_eq!(d.active_window("market1"), None);
    assert!(d.handle_price_change(&store, price_msg("yes1", 5499)).is_none());
    assert_eq!(d.active_window("market1").unwrap().spread, 1);
}

#[test]
fn each_open_is_answered_by_one_close_with_the_same_opened_at() {
    let store = make_store_with_market();
    let mut d = SpreadDetector::new();
    d.handle_price_change(&store, price_msg_at("no1", 4500, 5));
    let asks = [4500u32, 4500, 5600, 4400, 5600, 4300, 4300, 4300, 5700, 5800];
    let mut awaiting: Option<u64> = None;
    let mut opens = 0;
    let mut closes_multi = 0;
    for (i, a) in asks.iter().enumerate() {
        match d.handle_price_change(&store, price_msg_at("yes1", *a, 10 + i as u64)) {
            Some(WindowEvent::Open(o)) => {
                assert_eq!(awaiting, None);
                awaiting = Some(o.opened_at_ns);
                opens += 1;
            }
            Some(WindowEvent::Close(c)) => {
                match awaiting {
                    Some(t) => {
                        assert_eq!(c.opened_at_ns, t);
                        assert_eq!(c.open_duration_class, OpenDurationClass::MultiTick);
                        closes_multi += 1;
                    }
                    None => assert_eq!(c.open_duration_class, OpenDurationClass::SingleTick),
                }
                awaiting = None;
            }
            None => {}
        }
    }
    assert_eq!(opens, 2);
    assert_eq!(closes_multi, 2);
    assert_eq!(awaiting, None);
}

#[test]
fn close_record_carries_duration() {
    let w = ActiveWindow {
        yes_ask: 4500,
        no_ask: 4500,
        spread: 1000,
        opened_at_ns: 1_000_000,
        tick_count: 3,
        prev_yes_ask: 4500,
        prev_no_ask: 4500,
        trade_event_fired: false,
        volume_change_ticks: 0,
        price_shift_ticks: 2,
        pending: false,
    };
    let c = emit_close("m".to_string(), &w, 3_500_000);
    assert_eq!(c.duration_ns, 2_500_000);
    assert_eq!(c.closed_at_ns, 3_500_000);
    assert_eq!(c.close_reason, Some(CloseReason::PriceDrift));
    assert_eq!(c.spread_category, SpreadCategory::Large);
    let back = emit_close("m".to_string(), &w, 999);
    assert_eq!(back.duration_ns, 0);
    let o = open_event("m".to_string(), &w);
    assert_eq!(o.opened_at_ns, 1_000_000);
    assert_eq!(o.spread, 1000);
}

#[test]
fn diagnostics_report_and_reset_tightest_spread() {
    let store = make_store_with_market();
    let mut d = SpreadDetector::new();
    d.handle_price_change(&store, price_msg("no1", 4500));
    feed(&store, &mut d, &[5600, 5400, 5400, 5700]);
    let diag = d.take_diagnostics();
    assert_eq!(diag.price_msgs, 5);
    assert_eq!(diag.windows_opened, 1);
    assert_eq!(diag.windows_closed, 1);
    assert_eq!(diag.active, 0);
    assert_eq!(diag.tightest_spread, Some(100));
    assert_eq!(d.take_diagnostics().tightest_spread, None);
}

#[test]
fn counters_stop_at_their_greatest_value() {
    let mut w = ActiveWindow {
        yes_ask: 1,
        no_ask: 1,
        spread: 9998,
        opened_at_ns: 0,
        tick_count: u32::MAX,
        prev_yes_ask: 1,
        prev_no_ask: 1,
        trade_event_fired: true,
        volume_change_ticks: u32::MAX,
        price_shift_ticks: u32::MAX,
        pending: false,
    };
    assert!(!w.advance(2, 1));
    w.record_trade();
    assert_eq!(w.tick_count, u32::MAX);
    assert_eq!(w.volume_change_ticks, u32::MAX);
    assert_eq!(w.price_shift_ticks, u32::MAX);
}
