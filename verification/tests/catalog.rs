use arb_scanner::catalog::{
    next_page_offset, parse_gamma_market, parse_gamma_market_checked,
    parse_gamma_market_unfiltered, parse_pinned_slugs, tally_page, FetchStats, GammaMarket,
    Rejection, ScanFilters,
};
use arb_scanner::catalog::{
    parse_category_str, parse_prefix_duration_secs, parse_slug_end_ts, resolve_outcomes,
};
use arb_scanner::types::Category;

fn strs(v: &[&str]) -> Vec<String> {
    v.iter().map(|s| s.to_string()).collect()
}

#[test]
fn slug_end_timestamp() {
    assert_eq!(parse_slug_end_ts("btc-updown-5m-1772068500"), 1772068500);
    assert_eq!(parse_slug_end_ts("1772068500"), 1772068500);
    assert_eq!(parse_slug_end_ts("btc-updown-5m"), 0);
    assert_eq!(parse_slug_end_ts("btc-updown-"), 0);
    assert_eq!(parse_slug_end_ts(""), 0);
    assert_eq!(parse_slug_end_ts("a-+17"), 17);
    assert_eq!(parse_slug_end_ts("a-+"), 0);
    assert_eq!(parse_slug_end_ts("a-18446744073709551615"), u64::MAX);
    assert_eq!(parse_slug_end_ts("a-18446744073709551616"), 0);
    assert_eq!(parse_slug_end_ts("a-00012"), 12);
    assert_eq!(parse_slug_end_ts("a-12 "), 0);
}

#[test]
fn prefix_duration() {
    assert_eq!(parse_prefix_duration_secs("btc-updown-5m"), 300);
    assert_eq!(parse_prefix_duration_secs("eth-updown-15m"), 900);
    assert_eq!(parse_prefix_duration_secs("sol-updown-1h"), 3600);
    assert_eq!(parse_prefix_duration_secs("sol-updown-4h"), 14_400);
    assert_eq!(parse_prefix_duration_secs("sol-updown"), 300);
    assert_eq!(parse_prefix_duration_secs("sol-updown-m"), 300);
    assert_eq!(parse_prefix_duration_secs("sol-updown-xm"), 300);
    assert_eq!(parse_prefix_duration_secs("sol-updown-h"), 3600);
    assert_eq!(parse_prefix_duration_secs("sol-updown-xh"), 3600);
    assert_eq!(parse_prefix_duration_secs(""), 300);
    assert_eq!(parse_prefix_duration_secs("x-"), 300);
    assert_eq!(parse_prefix_duration_secs("x-0m"), 0);
    assert_eq!(parse_prefix_duration_secs("30m"), 1800);
    assert_eq!(parse_prefix_duration_secs("x-18446744073709551615h"), u64::MAX);
}

#[test]
fn categories() {
    assert_eq!(parse_category_str("sports"), Category::Sports);
    assert_eq!(parse_category_str("Sports"), Category::Sports);
    assert_eq!(parse_category_str("WEATHER"), Category::Weather);
    assert_eq!(parse_category_str("crypto"), Category::Crypto);
    assert_eq!(parse_category_str("Politics"), Category::Politics);
    assert_eq!(parse_category_str("economics"), Category::Economics);
    assert_eq!(parse_category_str("other"), Category::Other);
    assert_eq!(parse_category_str("pop culture"), Category::Other);
    assert_eq!(parse_category_str(""), Category::Other);
    assert_eq!(parse_category_str(" sports"), Category::Other);
    assert_eq!(Category::Economics.name(), "economics");
}

#[test]
fn outcome_labels() {
    assert_eq!(resolve_outcomes(&strs(&["Yes", "No"])), Some((0, 1)));
    assert_eq!(resolve_outcomes(&strs(&["No", "Yes"])), Some((1, 0)));
    assert_eq!(resolve_outcomes(&strs(&["DOWN", "up"])), Some((1, 0)));
    assert_eq!(resolve_outcomes(&strs(&["yes", "down"])), Some((0, 1)));
    assert_eq!(resolve_outcomes(&strs(&["Maybe", "No", "Yes", "yes", "no"])), Some((2, 1)));
}

#[test]
fn two_unrecognised_outcomes_fall_back_to_their_positions() {
    assert_eq!(resolve_outcomes(&strs(&["Lakers", "Celtics"])), Some((0, 1)));
    assert_eq!(resolve_outcomes(&strs(&["No", "Celtics"])), Some((0, 1)));
    assert_eq!(resolve_outcomes(&strs(&["A", "B", "C"])), None);
    assert_eq!(resolve_outcomes(&strs(&["Yes", "B", "C"])), None);
    assert_eq!(resolve_outcomes(&strs(&["Yes"])), None);
    assert_eq!(resolve_outcomes(&strs(&[])), None);
}


const NOW: i64 = 1_705_276_800; // 2024-01-15T00:00:00Z

fn filters() -> ScanFilters {
    ScanFilters {
        max_markets: 200,
        min_volume_24h_cents: 1_000_000,
        min_liquidity_cents: 100_000,
        min_expiry_secs: 30 * 60,
        max_expiry_secs: 72 * 3600,
    }
}

fn listing(id: &str) -> GammaMarket {
    GammaMarket {
        condition_id: Some(id.to_string()),
        token_ids: strs(&["tok_a", "tok_b"]),
        outcomes: strs(&["Yes", "No"]),
        question: Some("Will it?".to_string()),
        end_date_iso: Some("2024-01-16T00:00:00Z".to_string()),
        category: Some("Sports".to_string()),
        volume_24h_cents: 2_000_000,
        liquidity_cents: 200_000,
        total_volume_cents: Some(5_000_000),
    }
}

#[test]
fn qualifying_listing_becomes_a_market() {
    let m = parse_gamma_market_checked(&listing("0xabc"), &filters(), NOW).unwrap();
    assert_eq!(m.id, "0xabc");
    assert_eq!(m.question, "Will it?");
    assert_eq!(m.category, Category::Sports);
    assert_eq!(m.end_date_iso.as_deref(), Some("2024-01-16T00:00:00Z"));
    assert_eq!(m.total_volume_cents, Some(5_000_000));
    assert_eq!(m.yes_token_id, "tok_a");
    assert_eq!(m.no_token_id, "tok_b");
    assert!(parse_gamma_market(&listing("0xabc"), &filters(), NOW).is_some());
}

#[test]
fn sides_follow_the_labels() {
    let mut g = listing("m");
    g.outcomes = strs(&["Down", "Up"]);
    let m = parse_gamma_market_checked(&g, &filters(), NOW).unwrap();
    assert_eq!(m.yes_token_id, "tok_b");
    assert_eq!(m.no_token_id, "tok_a");
    g.outcomes = strs(&["Lakers", "Celtics"]);
    let m = parse_gamma_market_unfiltered(&g).unwrap();
    assert_eq!(m.yes_token_id, "tok_a");
    assert_eq!(m.no_token_id, "tok_b");
}

#[test]
fn each_rejection_and_their_order() {
    let f = filters();
    let mut g = listing("m");
    g.token_ids = strs(&["only"]);
    g.outcomes = strs(&["A", "B", "C"]);
    assert_eq!(parse_gamma_market_checked(&g, &f, NOW), Err(Rejection::NoTokens));

    let mut g = listing("m");
    g.outcomes = strs(&["A", "B", "C"]);
    g.volume_24h_cents = 0;
    assert_eq!(
        parse_gamma_market_checked(&g, &f, NOW),
        Err(Rejection::NoOutcomes("Will it?".to_string(), strs(&["A", "B", "C"])))
    );
    g.question = None;
    assert_eq!(
        parse_gamma_market_checked(&g, &f, NOW),
        Err(Rejection::NoOutcomes("?".to_string(), strs(&["A", "B", "C"])))
    );

    let mut g = listing("m");
    g.outcomes = strs(&["maybe", "no", "yes"]);
    assert_eq!(parse_gamma_market_checked(&g, &f, NOW), Err(Rejection::NoTokens));
    assert!(parse_gamma_market_unfiltered(&g).is_none());

    let mut g = listing("m");
    g.volume_24h_cents = 999_999;
    g.liquidity_cents = 0;
    assert_eq!(parse_gamma_market_checked(&g, &f, NOW), Err(Rejection::LowVolume));
    g.volume_24h_cents = 1_000_000;
    assert_eq!(parse_gamma_market_checked(&g, &f, NOW), Err(Rejection::LowLiquidity));
    g.liquidity_cents = 100_000;
    assert!(parse_gamma_market_checked(&g, &f, NOW).is_ok());

    let mut g = listing("");
    assert_eq!(parse_gamma_market_checked(&g, &f, NOW), Err(Rejection::NoTokens));
    g.condition_id = None;
    assert_eq!(parse_gamma_market_checked(&g, &f, NOW), Err(Rejection::NoTokens));
    g.end_date_iso = None;
    assert_eq!(parse_gamma_market_checked(&g, &f, NOW), Err(Rejection::Expiry));
    assert_eq!(parse_gamma_market(&g, &f, NOW), None);
}

#[test]
fn expiry_window() {
    let f = filters();
    let mut g = listing("m");
    for (end, ok) in [
        ("2024-01-15T00:30:00Z", true),
        ("2024-01-15T00:29:59Z", false),
        ("2024-01-18T00:00:00Z", true),
        ("2024-01-18T00:00:01Z", false),
        ("2024-01-14T00:00:00Z", false),
        ("soon", false),
        ("2024-01-16", true),
    ] {
        g.end_date_iso = Some(end.to_string());
        assert_eq!(parse_gamma_market_checked(&g, &f, NOW).is_ok(), ok, "{}", end);
        if !ok {
            assert_eq!(parse_gamma_market_checked(&g, &f, NOW), Err(Rejection::Expiry));
        }
    }
}

#[test]
fn unfiltered_listing() {
    let mut g = listing("m");
    g.volume_24h_cents = 0;
    g.liquidity_cents = 0;
    g.end_date_iso = None;
    g.category = None;
    g.question = None;
    let m = parse_gamma_market_unfiltered(&g).unwrap();
    assert_eq!(m.category, Category::Crypto);
    assert_eq!(m.question, "");
    assert_eq!(m.end_date_iso, None);
    g.category = Some("weather".to_string());
    assert_eq!(parse_gamma_market_unfiltered(&g).unwrap().category, Category::Weather);
    assert_eq!(parse_gamma_market_checked(&listing("m"), &filters(), NOW).unwrap().category, Category::Sports);
    let mut h = listing("m");
    h.category = None;
    assert_eq!(parse_gamma_market_checked(&h, &filters(), NOW).unwrap().category, Category::Other);
    g.condition_id = None;
    assert!(parse_gamma_market_unfiltered(&g).is_none());
    let mut g = listing("m");
    g.outcomes = strs(&["Yes"]);
    assert!(parse_gamma_market_unfiltered(&g).is_none());
    let mut g = listing("m");
    g.token_ids = strs(&[]);
    assert!(parse_gamma_market_unfiltered(&g).is_none());
}

#[test]
fn page_tally_counts_and_stops_at_the_cap() {
    let mut f = filters();
    f.max_markets = 2;
    let mut low = listing("low");
    low.volume_24h_cents = 0;
    let mut odd = listing("odd");
    odd.outcomes = strs(&["A", "B", "C"]);
    let mut late = listing("late");
    late.end_date_iso = None;
    let mut thin = listing("thin");
    thin.liquidity_cents = 0;
    let mut bare = listing("bare");
    bare.token_ids = strs(&[]);
    let items = vec![low, listing("m1"), odd, late, thin, bare, listing("m2"), listing("m3")];
    let mut markets = Vec::new();
    let mut stats = FetchStats::new();
    let reached = tally_page(&items, &f, NOW, &mut markets, &mut stats);
    assert!(reached);
    assert_eq!(markets.iter().map(|m| m.id.clone()).collect::<Vec<_>>(), strs(&["m1", "m2"]));
    assert_eq!(stats.api_total, 8);
    assert_eq!(stats.rejected_low_volume, 1);
    assert_eq!(stats.rejected_no_outcomes, 1);
    assert_eq!(stats.rejected_expiry, 1);
    assert_eq!(stats.rejected_low_liquidity, 1);
    assert_eq!(stats.rejected_no_tokens, 1);
    assert_eq!(stats.outcome_samples, vec![("Will it?".to_string(), strs(&["A", "B", "C"]))]);

    let mut markets = Vec::new();
    let mut stats = FetchStats::new();
    let few = vec![listing("only")];
    assert!(!tally_page(&few, &f, NOW, &mut markets, &mut stats));
    assert_eq!(markets.len(), 1);
    assert_eq!(stats.api_total, 1);
}

#[test]
fn outcome_samples_are_capped_at_ten() {
    let mut stats = FetchStats::new();
    for i in 0..12 {
        stats.record_rejection(Rejection::NoOutcomes(format!("q{}", i), strs(&["x"])));
    }
    assert_eq!(stats.rejected_no_outcomes, 12);
    assert_eq!(stats.outcome_samples.len(), 10);
    assert_eq!(stats.outcome_samples[9].0, "q9");
}

#[test]
fn paging() {
    assert_eq!(next_page_offset(500, 0), Some(500));
    assert_eq!(next_page_offset(500, 1500), Some(2000));
    assert_eq!(next_page_offset(499, 0), None);
    assert_eq!(next_page_offset(0, 500), None);
    assert_eq!(next_page_offset(500, usize::MAX - 10), None);
}

#[test]
fn pinned_slug_list() {
    assert_eq!(
        parse_pinned_slugs("btc-updown-5m,btc-updown-15m,eth-updown-5m"),
        strs(&["btc-updown-5m", "btc-updown-15m", "eth-updown-5m"])
    );
    assert_eq!(
        parse_pinned_slugs("  btc-updown-5m , ,\teth-updown-1h\n,,"),
        strs(&["btc-updown-5m", "eth-updown-1h"])
    );
    assert_eq!(parse_pinned_slugs(""), Vec::<String>::new());
    assert_eq!(parse_pinned_slugs(" , ,"), Vec::<String>::new());
    assert_eq!(parse_pinned_slugs("one"), strs(&["one"]));
    assert_eq!(parse_pinned_slugs("a b ,c"), strs(&["a b", "c"]));
    assert_eq!(parse_pinned_slugs("é-1,\u{3000}ü\u{a0}"), strs(&["é-1", "ü"]));
    for s in ["x,y", " x ,, y,", ",", "a,,b", "\u{2003}a\u{2003}"] {
        let want: Vec<String> =
            s.split(',').map(|p| p.trim().to_string()).filter(|p| !p.is_empty()).collect();
        assert_eq!(parse_pinned_slugs(s), want, "{:?}", s);
    }
}
