use arb_scanner::messages::{
    expand_frames, expand_raw_msg, failure_sample, is_array_frame, BookChange, BookLevel,
    ParseFailures, ParsedFrame, PriceChangeEntry, RawBookMsg,
};

fn s(x: &str) -> Option<String> {
    Some(x.to_string())
}

fn level(price: &str, size: &str) -> BookLevel {
    BookLevel { price: price.to_string(), size: size.to_string() }
}

fn raw(event_type: &str) -> RawBookMsg {
    RawBookMsg {
        event_type: s(event_type),
        asset_id: None,
        asks: None,
        bids: None,
        price_changes: None,
        price: None,
    }
}

fn entry(asset: &str, price: &str, size: &str, side: &str, bid: &str, ask: &str) -> PriceChangeEntry {
    PriceChangeEntry {
        asset_id: asset.to_string(),
        price: price.to_string(),
        size: size.to_string(),
        side: side.to_string(),
        best_bid: s(bid),
        best_ask: s(ask),
    }
}

#[test]
fn expands_book_snapshot() {
    let msg = RawBookMsg {
        asset_id: s("tok1"),
        asks: Some(vec![level("0.55", "100")]),
        bids: Some(vec![level("0.54", "200")]),
        ..raw("book")
    };
    let frames = expand_frames(vec![msg]);
    assert_eq!(frames.len(), 1);
    match &frames[0] {
        ParsedFrame::BookSnapshot { asset_id, asks, bids } => {
            assert_eq!(asset_id, "tok1");
            assert_eq!(asks.len(), 1);
            assert_eq!(asks[0].price, "0.55");
            assert_eq!(bids.len(), 1);
            assert_eq!(bids[0].price, "0.54");
        }
        other => panic!("expected BookSnapshot, got {other:?}"),
    }
}

#[test]
fn snapshot_without_sides_has_empty_sides_and_without_asset_is_dropped() {
    let frames = expand_frames(vec![RawBookMsg { asset_id: s("t"), ..raw("book") }, raw("book")]);
    assert_eq!(
        frames,
        vec![ParsedFrame::BookSnapshot { asset_id: "t".to_string(), asks: vec![], bids: vec![] }]
    );
}

#[test]
fn expands_price_change_entry() {
    let msg = RawBookMsg {
        price_changes: Some(vec![entry("tok1", "0.55", "200", "SELL", "0.52", "0.55")]),
        ..raw("price_change")
    };
    let frames = expand_frames(vec![msg]);
    assert_eq!(frames.len(), 1);
    match &frames[0] {
        ParsedFrame::BookPriceChange { asset_id, change, best_bid, best_ask } => {
            assert_eq!(asset_id, "tok1");
            assert_eq!(change.side, "SELL");
            assert_eq!(change.price, "0.55");
            assert_eq!(change.size, "200");
            assert_eq!(*best_bid, Some(5200));
            assert_eq!(*best_ask, Some(5500));
        }
        other => panic!("expected BookPriceChange, got {other:?}"),
    }
}

#[test]
fn one_frame_per_price_change_entry_in_order() {
    let msg = RawBookMsg {
        price_changes: Some(vec![
            entry("tok1", "0.55", "0", "SELL", "0.52", "0.56"),
            entry("tok2", "0.45", "50", "BUY", "0.45", "0.47"),
        ]),
        ..raw("price_change")
    };
    let frames = expand_frames(vec![msg]);
    assert_eq!(frames.len(), 2);
    match &frames[0] {
        ParsedFrame::BookPriceChange { asset_id, change, .. } => {
            assert_eq!(asset_id, "tok1");
            assert_eq!(change.side, "SELL");
            assert_eq!(change.size, "0");
        }
        other => panic!("expected BookPriceChange, got {other:?}"),
    }
    match &frames[1] {
        ParsedFrame::BookPriceChange { asset_id, change, .. } => {
            assert_eq!(asset_id, "tok2");
            assert_eq!(change.side, "BUY");
        }
        other => panic!("expected BookPriceChange, got {other:?}"),
    }
}

#[test]
fn empty_or_missing_price_changes_give_nothing() {
    let empty = RawBookMsg { price_changes: Some(vec![]), ..raw("price_change") };
    assert!(expand_frames(vec![empty, raw("price_change")]).is_empty());
}

#[test]
fn unreadable_server_bests_are_left_out() {
    let mut e = entry("tok1", "0.55", "1", "SELL", "n/a", "");
    e.best_ask = None;
    let msg = RawBookMsg { price_changes: Some(vec![e]), ..raw("price_change") };
    assert_eq!(
        expand_frames(vec![msg]),
        vec![ParsedFrame::BookPriceChange {
            asset_id: "tok1".to_string(),
            change: BookChange {
                price: "0.55".to_string(),
                side: "SELL".to_string(),
                size: "1".to_string()
            },
            best_bid: None,
            best_ask: None,
        }]
    );
}

#[test]
fn expands_last_trade_price() {
    let msg = RawBookMsg { asset_id: s("tok1"), price: s("0.57"), ..raw("last_trade_price") };
    let frames = expand_frames(vec![msg]);
    assert_eq!(
        frames,
        vec![ParsedFrame::LastTradePrice { asset_id: "tok1".to_string(), price: 5700 }]
    );
}

#[test]
fn trade_without_asset_or_readable_price_is_dropped() {
    let no_asset = RawBookMsg { price: s("0.57"), ..raw("last_trade_price") };
    let no_price = RawBookMsg { asset_id: s("t"), ..raw("last_trade_price") };
    let bad_price = RawBookMsg { asset_id: s("t"), price: s("x"), ..raw("last_trade_price") };
    assert!(expand_frames(vec![no_asset, no_price, bad_price]).is_empty());
}

#[test]
fn unknown_or_missing_event_type_gives_nothing() {
    let other = RawBookMsg { asset_id: s("tok1"), ..raw("some_other_event") };
    let mut none = raw("x");
    none.event_type = None;
    let upper = RawBookMsg { asset_id: s("tok1"), ..raw("BOOK") };
    assert!(expand_frames(vec![other, none, upper]).is_empty());
}

#[test]
fn objects_of_an_array_expand_in_order_onto_what_is_there() {
    let mut out = vec![ParsedFrame::LastTradePrice { asset_id: "first".to_string(), price: 1 }];
    expand_raw_msg(RawBookMsg { asset_id: s("a"), price: s("0.5"), ..raw("last_trade_price") }, &mut out);
    expand_raw_msg(raw("noise"), &mut out);
    expand_raw_msg(RawBookMsg { asset_id: s("b"), ..raw("book") }, &mut out);
    assert_eq!(out.len(), 3);
    assert_eq!(out[1], ParsedFrame::LastTradePrice { asset_id: "a".to_string(), price: 5000 });
    assert!(matches!(&out[2], ParsedFrame::BookSnapshot { asset_id, .. } if asset_id == "b"));
    let both = expand_frames(vec![
        RawBookMsg { asset_id: s("a"), price: s("0.5"), ..raw("last_trade_price") },
        RawBookMsg { asset_id: s("b"), price: s("0.6"), ..raw("last_trade_price") },
    ]);
    assert_eq!(
        both,
        vec![
            ParsedFrame::LastTradePrice { asset_id: "a".to_string(), price: 5000 },
            ParsedFrame::LastTradePrice { asset_id: "b".to_string(), price: 6000 },
        ]
    );
}

#[test]
fn array_frames_start_with_a_bracket() {
    assert!(is_array_frame("[{}]"));
    assert!(is_array_frame("  \n\t[1]"));
    assert!(is_array_frame("\u{a0}\u{3000}["));
    assert!(is_array_frame("["));
    assert!(!is_array_frame("{\"a\":[1]}"));
    assert!(!is_array_frame(""));
    assert!(!is_array_frame("   "));
    assert!(!is_array_frame("x["));
    assert!(!is_array_frame("\u{200b}["));
}

#[test]
fn first_ten_failures_and_every_thousandth_are_reported() {
    let mut f = ParseFailures::new();
    let mut reported = Vec::new();
    for i in 1..=2001u64 {
        if f.record() {
            reported.push(i);
        }
    }
    assert_eq!(reported, vec![1, 2, 3, 4, 5, 6, 7, 8, 9, 10, 1000, 2000]);
    assert_eq!(f.total(), 2001);
}

#[test]
fn failure_sample_is_at_most_500_bytes_and_whole_characters() {
    assert_eq!(failure_sample(""), "");
    assert_eq!(failure_sample("short"), "short");
    let long = "a".repeat(600);
    assert_eq!(failure_sample(&long), "a".repeat(500));
    let exact = "b".repeat(500);
    assert_eq!(failure_sample(&exact), exact);
    let split = format!("{}é{}", "a".repeat(499), "z".repeat(50));
    assert_eq!(failure_sample(&split), "a".repeat(499));
    let fits = format!("{}é{}", "a".repeat(498), "z".repeat(50));
    assert_eq!(failure_sample(&fits), format!("{}é", "a".repeat(498)));
    let wide = format!("{}😀tail", "a".repeat(497));
    assert_eq!(failure_sample(&wide), "a".repeat(497));
}
