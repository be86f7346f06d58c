use arb_scanner::classifier::classify;
use arb_scanner::types::{
    opportunity_class, CloseReason, OpenDurationClass, SpreadCategory, WindowObservables,
};

fn obs(tick_count: u32, trade: bool, volume_ticks: u32, price_shifted: bool) -> WindowObservables {
    WindowObservables {
        tick_count,
        trade_event_fired: trade,
        volume_change_ticks: volume_ticks,
        price_shifted,
    }
}

#[test]
fn single_tick_is_noise() {
    let (class, reason) = classify(&obs(1, true, 3, true));
    assert_eq!(class, OpenDurationClass::SingleTick);
    assert!(reason.is_none());
}

#[test]
fn multi_tick_gradual_spike() {
    let (class, reason) = classify(&obs(3, true, 2, false));
    assert_eq!(class, OpenDurationClass::MultiTick);
    assert_eq!(reason, Some(CloseReason::VolumeSpikeGradual));
}

#[test]
fn multi_tick_instant_spike() {
    let (class, reason) = classify(&obs(3, true, 1, false));
    assert_eq!(class, OpenDurationClass::MultiTick);
    assert_eq!(reason, Some(CloseReason::VolumeSpikeInstant));
}

#[test]
fn multi_tick_price_drift() {
    let (class, reason) = classify(&obs(4, false, 0, true));
    assert_eq!(class, OpenDurationClass::MultiTick);
    assert_eq!(reason, Some(CloseReason::PriceDrift));
}

#[test]
fn multi_tick_order_vanished() {
    let (class, reason) = classify(&obs(2, false, 0, false));
    assert_eq!(class, OpenDurationClass::MultiTick);
    assert_eq!(reason, Some(CloseReason::OrderVanished));
}

#[test]
fn classify_gives_equal_labels_for_equal_observables() {
    let a = obs(7, true, 4, true);
    let b = obs(7, true, 4, true);
    assert_eq!(classify(&a), classify(&b));
}

#[test]
fn classify_zero_ticks_is_single_tick() {
    let (class, reason) = classify(&obs(0, false, 0, false));
    assert_eq!(class, OpenDurationClass::SingleTick);
    assert_eq!(reason, None);
}

#[test]
fn classify_trade_with_zero_volume_ticks_is_instant() {
    let (class, reason) = classify(&obs(2, true, 0, true));
    assert_eq!(class, OpenDurationClass::MultiTick);
    assert_eq!(reason, Some(CloseReason::VolumeSpikeInstant));
}

#[test]
fn opportunity_class_table() {
    assert_eq!(opportunity_class(OpenDurationClass::SingleTick, None), 0);
    assert_eq!(
        opportunity_class(OpenDurationClass::SingleTick, Some(CloseReason::PriceDrift)),
        0
    );
    assert_eq!(
        opportunity_class(OpenDurationClass::MultiTick, Some(CloseReason::VolumeSpikeGradual)),
        1
    );
    assert_eq!(
        opportunity_class(OpenDurationClass::MultiTick, Some(CloseReason::PriceDrift)),
        2
    );
    assert_eq!(
        opportunity_class(OpenDurationClass::MultiTick, Some(CloseReason::VolumeSpikeInstant)),
        3
    );
    assert_eq!(
        opportunity_class(OpenDurationClass::MultiTick, Some(CloseReason::OrderVanished)),
        4
    );
    assert_eq!(opportunity_class(OpenDurationClass::MultiTick, None), 4);
}

#[test]
fn spread_category_thresholds() {
    assert_eq!(SpreadCategory::from_spread(-5), SpreadCategory::Noise);
    assert_eq!(SpreadCategory::from_spread(199), SpreadCategory::Noise);
    assert_eq!(SpreadCategory::from_spread(200), SpreadCategory::Small);
    assert_eq!(SpreadCategory::from_spread(499), SpreadCategory::Small);
    assert_eq!(SpreadCategory::from_spread(500), SpreadCategory::Medium);
    assert_eq!(SpreadCategory::from_spread(999), SpreadCategory::Medium);
    assert_eq!(SpreadCategory::from_spread(1000), SpreadCategory::Large);
}

#[test]
fn class_names() {
    assert_eq!(OpenDurationClass::SingleTick.name(), "single_tick");
    assert_eq!(OpenDurationClass::MultiTick.name(), "multi_tick");
    assert_eq!(CloseReason::VolumeSpikeGradual.name(), "volume_spike_gradual");
    assert_eq!(CloseReason::OrderVanished.name(), "order_vanished");
    assert_eq!(SpreadCategory::Large.name(), "large");
}
