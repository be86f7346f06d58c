//! The feed ingestor's decisions: what each decoded event does to the book
//! store and what it sends on to the detector.

use vstd::prelude::*;
use vstd::string::*;
use crate::config::FRAME_REPORT_EVERY;
use crate::decimal::{parse_price_key, parse_size, price_key_of, size_of};
use crate::messages::{
    frame_views, level_views, BookLevel, BookLevelView, ParsedFrame, ParsedFrameView,
};
use crate::store::{MarketStore, StoreView};
use crate::text::{reversed, str_eq};
use crate::types::{PriceChangeMsg, PriceChangeMsgView, TradeMsg, TradeMsgView};

verus! {

/// Greatest difference, in price keys, between a local best price and the
/// one the server gave along that is not reported: a thousandth.
pub const DIVERGENCE_TOLERANCE: u32 = 10;

/// The `(price key, size)` levels that a list of sent levels writes, in
/// order. A level whose price or size cannot be read is left out.
pub open spec fn levels_of(levels: Seq<BookLevelView>) -> Seq<(u32, u64)>
    decreases levels.len(),
{
    if levels.len() == 0 {
        Seq::empty()
    } else {
        let rest = levels_of(levels.drop_last());
        match (price_key_of(levels.last().price), size_of(levels.last().size)) {
            (Some(p), Some(s)) => rest.push((p, s)),
            _ => rest,
        }
    }
}

/// Reads a list of sent levels.
pub fn parse_levels(levels: &Vec<BookLevel>) -> (r: Vec<(u32, u64)>)
    ensures
        r@ == levels_of(level_views(levels@)),
{
    let ghost lv = level_views(levels@);
    let mut out: Vec<(u32, u64)> = Vec::new();
    let mut i: usize = 0;
    while i < levels.len()
        invariant
            i <= levels.len(),
            lv == level_views(levels@),
            out@ == levels_of(lv.take(i as int)),
        decreases levels.len() - i,
    {
        proof {
            assert(lv.take(i as int + 1).drop_last() =~= lv.take(i as int));
            assert(lv.take(i as int + 1).last() == levels@[i as int]@);
        }
        let price = parse_price_key(levels[i].price.as_str());
        let size = parse_size(levels[i].size.as_str());
        match (price, size) {
            (Some(p), Some(s)) => {
                out.push((p, s));
            },
            _ => {},
        }
        i += 1;
    }
    proof {
        assert(lv.take(levels.len() as int) =~= lv);
    }
    out
}

/// What an event sends on to the detector.
#[derive(Debug, PartialEq, Eq)]
pub enum Routed {
    /// Nothing: the event was dropped.
    Nothing,
    /// The token's new best prices. `diverged` says that the server gave
    /// its own best prices along and that one of them is further than the
    /// tolerance from the local one.
    Price { msg: PriceChangeMsg, diverged: bool },
    /// A trade.
    Trade(TradeMsg),
}

pub enum RoutedView {
    Nothing,
    Price { msg: PriceChangeMsgView, diverged: bool },
    Trade(TradeMsgView),
}

impl View for Routed {
    type V = RoutedView;

    open spec fn view(&self) -> RoutedView {
        match self {
            Routed::Nothing => RoutedView::Nothing,
            Routed::Price { msg, diverged } => RoutedView::Price { msg: msg@, diverged: *diverged },
            Routed::Trade(t) => RoutedView::Trade(t@),
        }
    }
}

/// The distance between two price keys.
pub open spec fn key_distance(a: u32, b: u32) -> int {
    if a >= b {
        a - b
    } else {
        b - a
    }
}

/// Whether the server's best prices, where it gave both, differ from the
/// local ones by more than the tolerance on either side.
pub open spec fn diverges(
    local_ask: u32,
    local_bid: u32,
    server_ask: Option<u32>,
    server_bid: Option<u32>,
) -> bool {
    match (server_ask, server_bid) {
        (Some(sa), Some(sb)) => key_distance(local_ask, sa) > DIVERGENCE_TOLERANCE || key_distance(
            local_bid,
            sb,
        ) > DIVERGENCE_TOLERANCE,
        _ => false,
    }
}

/// Computes [`diverges`].
pub fn check_divergence(
    local_ask: u32,
    local_bid: u32,
    server_ask: Option<u32>,
    server_bid: Option<u32>,
) -> (r: bool)
    ensures
        r == diverges(local_ask, local_bid, server_ask, server_bid),
{
    match (server_ask, server_bid) {
        (Some(sa), Some(sb)) => {
            let ask_diff: u32 = if local_ask >= sa {
                local_ask - sa
            } else {
                sa - local_ask
            };
            let bid_diff: u32 = if local_bid >= sb {
                local_bid - sb
            } else {
                sb - local_bid
            };
            ask_diff > DIVERGENCE_TOLERANCE || bid_diff > DIVERGENCE_TOLERANCE
        },
        _ => false,
    }
}

/// The price message for a token, where its best ask is positive; nothing
/// otherwise.
pub open spec fn price_or_nothing(
    token: Seq<char>,
    bests: Option<(u32, u32)>,
    server_ask: Option<u32>,
    server_bid: Option<u32>,
    at_ns: u64,
) -> RoutedView {
    match bests {
        Some((ask, bid)) => if ask > 0 {
            RoutedView::Price {
                msg: PriceChangeMsgView {
                    asset_id: token,
                    best_ask: ask,
                    best_bid: bid,
                    received_at_ns: at_ns,
                },
                diverged: diverges(ask, bid, server_ask, server_bid),
            }
        } else {
            RoutedView::Nothing
        },
        None => RoutedView::Nothing,
    }
}

/// The best prices of a known token's book, as the store reports them
/// after an update; `None` for an unknown token.
pub open spec fn bests_of(store: StoreView, known: bool, token: Seq<char>) -> Option<(u32, u32)> {
    if known {
        Some((store.books[token].best_ask_or_zero(), store.books[token].best_bid_or_zero()))
    } else {
        None
    }
}

/// The cached prices of a token, if any.
pub open spec fn cached_of(store: StoreView, token: Seq<char>) -> Option<(u32, u32)> {
    if store.states.contains_key(token) {
        Some((store.states[token].best_ask, store.states[token].best_bid))
    } else {
        None
    }
}

/// The store after a decoded event, and what the event sends on.
///
/// - A snapshot replaces the token's book; the new best prices are sent on
///   where the best ask is positive.
/// - A level change whose price and size can be read is applied to the
///   token's book, and the local book's new best prices are sent on where
///   the best ask is positive. One that cannot be read changes nothing, and
///   the cached prices are sent on where the cached ask is positive.
/// - A trade is sent on as it is.
pub open spec fn after_event(store: StoreView, frame: ParsedFrameView, at_ns: u64) -> (
    StoreView,
    RoutedView,
) {
    match frame {
        ParsedFrameView::BookSnapshot { asset_id, asks, bids } => {
            let after = store.after_snapshot(asset_id, levels_of(asks), levels_of(bids));
            (
                after,
                price_or_nothing(
                    asset_id,
                    bests_of(after, store.links.contains_key(asset_id), asset_id),
                    None,
                    None,
                    at_ns,
                ),
            )
        },
        ParsedFrameView::BookPriceChange { asset_id, change, best_bid, best_ask } => {
            match (price_key_of(change.price), size_of(change.size)) {
                (Some(p), Some(s)) => {
                    let after = store.after_changes(asset_id, seq![(p, change.side == "SELL"@, s)]);
                    (
                        after,
                        price_or_nothing(
                            asset_id,
                            bests_of(after, store.links.contains_key(asset_id), asset_id),
                            best_ask,
                            best_bid,
                            at_ns,
                        ),
                    )
                },
                _ => (
                    store,
                    price_or_nothing(asset_id, cached_of(store, asset_id), best_ask, best_bid, at_ns),
                ),
            }
        },
        ParsedFrameView::LastTradePrice { asset_id, price } => (
            store,
            RoutedView::Trade(TradeMsgView { asset_id, price, received_at_ns: at_ns }),
        ),
    }
}

/// Builds what a token's best prices send on.
fn route_price(
    asset_id: String,
    bests: Option<(u32, u32)>,
    server_ask: Option<u32>,
    server_bid: Option<u32>,
    at_ns: u64,
) -> (r: Routed)
    ensures
        r@ == price_or_nothing(asset_id@, bests, server_ask, server_bid, at_ns),
{
    match bests {
        Some((ask, bid)) => {
            if ask > 0 {
                let diverged = check_divergence(ask, bid, server_ask, server_bid);
                Routed::Price {
                    msg: PriceChangeMsg {
                        asset_id,
                        best_ask: ask,
                        best_bid: bid,
                        received_at_ns: at_ns,
                    },
                    diverged,
                }
            } else {
                Routed::Nothing
            }
        },
        None => Routed::Nothing,
    }
}

/// Applies one decoded event to the store and says what to send on to the
/// detector.
pub fn apply_event(store: &mut MarketStore, frame: ParsedFrame, received_at_ns: u64) -> (r: Routed)
    ensures
        (final(store)@, r@) == after_event(old(store)@, frame@, received_at_ns),
        old(store)@.wf() ==> final(store)@.wf(),
{
    match frame {
        ParsedFrame::BookSnapshot { asset_id, asks, bids } => {
            let parsed_asks = parse_levels(&asks);
            let parsed_bids = parse_levels(&bids);
            let bests = store.apply_book_snapshot(
                asset_id.as_str(),
                parsed_asks.as_slice(),
                parsed_bids.as_slice(),
            );
            route_price(asset_id, bests, None, None, received_at_ns)
        },
        ParsedFrame::BookPriceChange { asset_id, change, best_bid, best_ask } => {
            let price = parse_price_key(change.price.as_str());
            let size = parse_size(change.size.as_str());
            match (price, size) {
                (Some(p), Some(s)) => {
                    let is_ask = str_eq(change.side.as_str(), "SELL");
                    let mut changes: Vec<(u32, bool, u64)> = Vec::new();
                    changes.push((p, is_ask, s));
                    proof {
                        assert(changes@ =~= seq![(p, is_ask, s)]);
                    }
                    let bests = store.apply_book_changes(asset_id.as_str(), changes.as_slice());
                    route_price(asset_id, bests, best_ask, best_bid, received_at_ns)
                },
                _ => {
                    let bests = store.best_prices(asset_id.as_str());
                    route_price(asset_id, bests, best_ask, best_bid, received_at_ns)
                },
            }
        },
        ParsedFrame::LastTradePrice { asset_id, price } => Routed::Trade(
            TradeMsg { asset_id, price, received_at_ns },
        ),
    }
}

/// `x + 1` modulo 2^64.
pub open spec fn wrap_inc(x: u64) -> u64 {
    if x == u64::MAX {
        0
    } else {
        (x + 1) as u64
    }
}

fn inc(x: u64) -> (r: u64)
    ensures
        r == wrap_inc(x),
{
    if x == u64::MAX {
        0
    } else {
        x + 1
    }
}

/// Counters of the feed ingestor. Each counts modulo 2^64.
#[derive(Debug, Clone, Copy, PartialEq, Eq, Structural)]
pub struct FeedCounters {
    /// Text frames received.
    pub total_frames: u64,
    /// Price messages sent on to the detector.
    pub routed_price_msgs: u64,
    /// Snapshot events decoded.
    pub snapshots: u64,
    /// Level-change events decoded.
    pub price_changes: u64,
    /// Trade events decoded.
    pub trades: u64,
}

impl FeedCounters {
    pub open spec fn zero() -> FeedCounters {
        FeedCounters { total_frames: 0, routed_price_msgs: 0, snapshots: 0, price_changes: 0, trades: 0 }
    }

    /// The counters after one more text frame.
    pub open spec fn with_frame(self) -> FeedCounters {
        FeedCounters { total_frames: wrap_inc(self.total_frames), ..self }
    }

    /// Whether a report of the counters is due: every so many frames.
    pub open spec fn report_due(self) -> bool {
        self.total_frames % FRAME_REPORT_EVERY == 0
    }

    /// The counters after one event of the given kind that sent on
    /// `routed`.
    pub open spec fn with_event(self, frame: ParsedFrameView, routed: RoutedView) -> FeedCounters {
        let c = match frame {
            ParsedFrameView::BookSnapshot { .. } => FeedCounters {
                snapshots: wrap_inc(self.snapshots),
                ..self
            },
            ParsedFrameView::BookPriceChange { .. } => FeedCounters {
                price_changes: wrap_inc(self.price_changes),
                ..self
            },
            ParsedFrameView::LastTradePrice { .. } => FeedCounters {
                trades: wrap_inc(self.trades),
                ..self
            },
        };
        match routed {
            RoutedView::Price { .. } => FeedCounters {
                routed_price_msgs: wrap_inc(c.routed_price_msgs),
                ..c
            },
            _ => c,
        }
    }
}

/// The book store, the counters and what was sent on, after one more
/// event. An event that sends nothing on adds nothing to the list.
pub open spec fn after_one(
    state: (StoreView, FeedCounters, Seq<RoutedView>),
    frame: ParsedFrameView,
    at_ns: u64,
) -> (StoreView, FeedCounters, Seq<RoutedView>) {
    let next = after_event(state.0, frame, at_ns);
    (
        next.0,
        state.1.with_event(frame, next.1),
        if next.1 is Nothing {
            state.2
        } else {
            state.2.push(next.1)
        },
    )
}

/// The book store, the counters and what was sent on, after the events of
/// one text frame, taken in order.
pub open spec fn after_events(
    store: StoreView,
    counters: FeedCounters,
    frames: Seq<ParsedFrameView>,
    at_ns: u64,
) -> (StoreView, FeedCounters, Seq<RoutedView>)
    decreases frames.len(),
{
    if frames.len() == 0 {
        (store, counters, Seq::empty())
    } else {
        after_one(after_events(store, counters, frames.drop_last(), at_ns), frames.last(), at_ns)
    }
}

/// The views of a list of things to send on.
pub open spec fn routed_views(v: Seq<Routed>) -> Seq<RoutedView> {
    v.map_values(|r: Routed| r@)
}

/// The decisions of the feed ingestor, with its counters.
pub struct FeedIngestor {
    counters: FeedCounters,
}

impl View for FeedIngestor {
    type V = FeedCounters;

    closed spec fn view(&self) -> FeedCounters {
        self.counters
    }
}

impl FeedIngestor {
    pub fn new() -> (r: Self)
        ensures
            r@ == FeedCounters::zero(),
    {
        FeedIngestor {
            counters: FeedCounters {
                total_frames: 0,
                routed_price_msgs: 0,
                snapshots: 0,
                price_changes: 0,
                trades: 0,
            },
        }
    }

    pub fn counters(&self) -> (r: FeedCounters)
        ensures
            r == self@,
    {
        self.counters
    }

    /// Counts one text frame. Returns the counters where a report is due.
    pub fn begin_frame(&mut self) -> (r: Option<FeedCounters>)
        ensures
            final(self)@ == old(self)@.with_frame(),
            r == (if final(self)@.report_due() {
                Some(final(self)@)
            } else {
                None
            }),
    {
        self.counters.total_frames = inc(self.counters.total_frames);
        if self.counters.total_frames % FRAME_REPORT_EVERY == 0 {
            Some(self.counters)
        } else {
            None
        }
    }

    /// Applies one decoded event to the store, counts it, and says what to
    /// send on to the detector.
    pub fn handle_event(&mut self, store: &mut MarketStore, frame: ParsedFrame, received_at_ns: u64) -> (r:
        Routed)
        ensures
            (final(store)@, r@) == after_event(old(store)@, frame@, received_at_ns),
            final(self)@ == old(self)@.with_event(frame@, r@),
            old(store)@.wf() ==> final(store)@.wf(),
    {
        match &frame {
            ParsedFrame::BookSnapshot { .. } => {
                self.counters.snapshots = inc(self.counters.snapshots);
            },
            ParsedFrame::BookPriceChange { .. } => {
                self.counters.price_changes = inc(self.counters.price_changes);
            },
            ParsedFrame::LastTradePrice { .. } => {
                self.counters.trades = inc(self.counters.trades);
            },
        }
        let r = apply_event(store, frame, received_at_ns);
        match &r {
            Routed::Price { .. } => {
                self.counters.routed_price_msgs = inc(self.counters.routed_price_msgs);
            },
            _ => {},
        }
        r
    }

    /// Takes the decoded events of one text frame: counts the frame, then
    /// applies each event in order. Returns the counters where a report is
    /// due, and what to send on to the detector, in order.
    pub fn handle_frame(
        &mut self,
        store: &mut MarketStore,
        events: Vec<ParsedFrame>,
        received_at_ns: u64,
    ) -> (r: (Option<FeedCounters>, Vec<Routed>))
        ensures
            (final(store)@, final(self)@, routed_views(r.1@)) == after_events(
                old(store)@,
                old(self)@.with_frame(),
                frame_views(events@),
                received_at_ns,
            ),
            r.0 == (if old(self)@.with_frame().report_due() {
                Some(old(self)@.with_frame())
            } else {
                None
            }),
            old(store)@.wf() ==> final(store)@.wf(),
    {
        let report = self.begin_frame();
        let ghost fv = frame_views(events@);
        let ghost total = events@.len() as int;
        let ghost c0 = self@;
        let mut rest = reversed(events);
        let mut out: Vec<Routed> = Vec::new();
        assert(routed_views(out@) =~= Seq::empty());
        while rest.len() > 0
            invariant
                rest@.len() <= total,
                total == fv.len(),
                forall|j: int| 0 <= j < rest@.len() ==> (#[trigger] rest@[j])@ == fv[total - 1 - j],
                (store@, self@, routed_views(out@)) == after_events(
                    old(store)@,
                    c0,
                    fv.take(total - rest@.len()),
                    received_at_ns,
                ),
                old(store)@.wf() ==> store@.wf(),
            decreases rest.len(),
        {
            let ghost done = total - rest@.len();
            let ghost last = rest@[rest@.len() - 1];
            let ghost prev = routed_views(out@);
            let frame = rest.pop().unwrap();
            proof {
                assert(frame == last);
                assert(frame@ == fv[done]);
                assert(fv.take(done + 1).drop_last() =~= fv.take(done));
                assert(fv.take(done + 1).last() == fv[done]);
            }
            let routed = self.handle_event(store, frame, received_at_ns);
            match routed {
                Routed::Nothing => {},
                other => {
                    out.push(other);
                    proof {
                        assert(routed_views(out@) =~= prev.push(other@));
                    }
                },
            }
        }
        proof {
            assert(fv.take(total) =~= fv);
        }
        (report, out)
    }
}

} // verus!
