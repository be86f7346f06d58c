use arb_scanner::decimal::parse_price_key;
use arb_scanner::display::{
    format_class, format_price_key, format_time_ns, i64_text, shorten_reason, truncate, u64_text,
};

#[test]
fn class_labels() {
    assert_eq!(format_class(Some(1), Some("multi_tick")), format!("P{}", 1));
    assert_eq!(format_class(Some(4), None), format!("P{}", 4));
    assert_eq!(format_class(Some(3), Some("single_tick")), "noise");
    assert_eq!(format_class(None, Some("single_tick")), "noise");
    assert_eq!(format_class(None, Some("multi_tick")), "—");
    assert_eq!(format_class(None, None), "—");
    assert_eq!(format_class(Some(-2), None), "P-2");
    assert_eq!(format_class(Some(i64::MIN), None), format!("P{}", i64::MIN));
    assert_eq!(format_class(Some(i64::MAX), None), format!("P{}", i64::MAX));
}

#[test]
fn numbers_in_base_ten() {
    for n in [0u64, 1, 9, 10, 11, 99, 100, 101, 12345, 1_000_000, u64::MAX] {
        assert_eq!(u64_text(n), n.to_string());
    }
    for v in [0i64, -1, 1, -10, 42, -9_999, i64::MIN, i64::MAX] {
        assert_eq!(i64_text(v), v.to_string());
    }
}

fn clock(ns: i64) -> String {
    let secs = (ns / 1_000_000_000) as u64;
    format!("{:02}:{:02}:{:02}", (secs / 3600) % 24, (secs / 60) % 60, secs % 60)
}

#[test]
fn time_of_day() {
    assert_eq!(format_time_ns(0), "00:00:00");
    assert_eq!(format_time_ns(999_999_999), "00:00:00");
    assert_eq!(format_time_ns(3_661_000_000_000), "01:01:01");
    assert_eq!(format_time_ns(86_399_000_000_000), "23:59:59");
    assert_eq!(format_time_ns(90_000_000_000_000), "01:00:00");
    assert_eq!(format_time_ns(1_705_314_600_123_456_789), "10:30:00");
    for ns in [-1i64, -999_999_999, -1_000_000_000, -2_000_000_000, -86_400_000_000_000, i64::MIN, i64::MAX] {
        assert_eq!(format_time_ns(ns), clock(ns), "{}", ns);
    }
}

#[test]
fn short_reasons() {
    assert_eq!(shorten_reason("volume_spike_gradual"), "vol-grad");
    assert_eq!(shorten_reason("volume_spike_instant"), "vol-inst");
    assert_eq!(shorten_reason("price_drift"), "drift");
    assert_eq!(shorten_reason("order_vanished"), "vanished");
    assert_eq!(shorten_reason(""), "—");
    assert_eq!(shorten_reason("Price_Drift"), "—");
}

#[test]
fn truncation() {
    assert_eq!(truncate("hello", 10), "hello");
    assert_eq!(truncate("hello", 5), "hello");
    assert_eq!(truncate("hello world", 8), "hello w…");
    assert_eq!(truncate("hello", 1), "…");
    assert_eq!(truncate("abc", 0), "…");
    assert_eq!(truncate("", 0), "");
    assert_eq!(truncate("héllo wörld", 4), "hé…");
    assert_eq!(truncate("héllo", 6), "héllo");
}

#[test]
fn price_keys_round_trip_through_their_numerals() {
    assert_eq!(format_price_key(5500), "0.5500");
    assert_eq!(format_price_key(0), "0.0000");
    assert_eq!(format_price_key(1), "0.0001");
    assert_eq!(format_price_key(10_000), "1.0000");
    assert_eq!(format_price_key(123_456), "12.3456");
    assert_eq!(format_price_key(u32::MAX), "429496.7295");
    for k in [0u32, 1, 9, 10, 99, 100, 999, 1000, 4500, 5500, 9999, 10_000, 10_001, 99_999, 1_234_567, u32::MAX] {
        assert_eq!(parse_price_key(&format_price_key(k)), Some(k));
    }
    let mut k = 0u32;
    while k < 20_000 {
        assert_eq!(parse_price_key(&format_price_key(k)), Some(k));
        k += 7;
    }
}
