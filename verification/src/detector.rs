//! The spread detector: one window state machine per market, driven by
//! price ticks and trades.
//!
//! The detector computes spreads from its own cache of best prices, which
//! it writes from the price messages alone, in the order in which they
//! arrive. It never reads a price from the shared store.

use vstd::prelude::*;
use vstd::hash_map::StringHashMap;
use crate::classifier::{classify, classify_spec};
use crate::config::{DIAGNOSTICS_EVERY_SECS, MIN_ARB_TICKS, READINESS_AFTER_SECS};
use crate::store::{MarketStore, StoreView};
use crate::types::{
    compute_spread, opportunity_class, opportunity_class_spec, spread_of, PriceChangeMsg, SpreadCategory, TradeMsg, WindowCloseEvent, WindowCloseEventView, WindowEvent,
    WindowEventView, WindowObservables, WindowOpenEvent, WindowOpenEventView,
};

verus! {

/// `x + 1`, stopping at the greatest value.
pub open spec fn bump32(x: u32) -> u32 {
    if x == u32::MAX {
        x
    } else {
        (x + 1) as u32
    }
}

/// `x + 1`, stopping at the greatest value.
pub open spec fn bump64(x: u64) -> u64 {
    if x == u64::MAX {
        x
    } else {
        (x + 1) as u64
    }
}

/// The state of a market that is inside an arbitrage interval.
#[derive(Debug, Clone, Copy, PartialEq, Eq, Structural)]
pub struct ActiveWindow {
    /// YES ask of the first tick.
    pub yes_ask: u32,
    /// NO ask of the first tick.
    pub no_ask: u32,
    /// Spread of the first tick, in price keys.
    pub spread: i64,
    pub opened_at_ns: u64,
    /// Number of ticks with a positive spread so far. Stops at `u32::MAX`.
    pub tick_count: u32,
    /// Asks of the previous tick, against which drift is measured.
    pub prev_yes_ask: u32,
    pub prev_no_ask: u32,
    pub trade_event_fired: bool,
    /// Number of trades seen. Stops at `u32::MAX`.
    pub volume_change_ticks: u32,
    /// Number of ticks on which an ask had moved. Stops at `u32::MAX`.
    pub price_shift_ticks: u32,
    /// Whether the window still awaits its confirmation.
    pub pending: bool,
}

impl ActiveWindow {
    /// A window has seen a tick, and it is pending exactly until it has
    /// seen the confirming number of them.
    pub open spec fn wf(self) -> bool {
        &&& self.tick_count >= 1
        &&& self.pending <==> self.tick_count < MIN_ARB_TICKS
    }

    /// The window that a first tick with a positive spread creates.
    pub open spec fn fresh(yes_ask: u32, no_ask: u32, at_ns: u64) -> ActiveWindow {
        ActiveWindow {
            yes_ask,
            no_ask,
            spread: spread_of(yes_ask, no_ask) as i64,
            opened_at_ns: at_ns,
            tick_count: 1,
            prev_yes_ask: yes_ask,
            prev_no_ask: no_ask,
            trade_event_fired: false,
            volume_change_ticks: 0,
            price_shift_ticks: 0,
            pending: true,
        }
    }

    /// Whether an ask differs from that of the previous tick.
    pub open spec fn drifted(self, yes_ask: u32, no_ask: u32) -> bool {
        yes_ask != self.prev_yes_ask || no_ask != self.prev_no_ask
    }

    /// Whether one more tick confirms the window.
    pub open spec fn confirms(self) -> bool {
        self.pending && bump32(self.tick_count) >= MIN_ARB_TICKS
    }

    /// The window after one more tick with a positive spread.
    pub open spec fn advanced(self, yes_ask: u32, no_ask: u32) -> ActiveWindow {
        ActiveWindow {
            tick_count: bump32(self.tick_count),
            price_shift_ticks: if self.drifted(yes_ask, no_ask) {
                bump32(self.price_shift_ticks)
            } else {
                self.price_shift_ticks
            },
            prev_yes_ask: yes_ask,
            prev_no_ask: no_ask,
            pending: self.pending && !self.confirms(),
            ..self
        }
    }

    /// The window after a trade on one of its tokens.
    pub open spec fn with_trade(self) -> ActiveWindow {
        ActiveWindow {
            trade_event_fired: true,
            volume_change_ticks: if self.trade_event_fired {
                bump32(self.volume_change_ticks)
            } else {
                1
            },
            ..self
        }
    }

    /// The counters of the window, frozen.
    pub open spec fn observables(self) -> WindowObservables {
        WindowObservables {
            tick_count: self.tick_count,
            trade_event_fired: self.trade_event_fired,
            volume_change_ticks: self.volume_change_ticks,
            price_shifted: self.price_shift_ticks > 1,
        }
    }

    /// The record of the window's confirmation: the prices and spread of
    /// its first tick.
    pub open spec fn open_event(self, market_id: Seq<char>) -> WindowOpenEventView {
        WindowOpenEventView {
            market_id,
            yes_ask: self.yes_ask,
            no_ask: self.no_ask,
            spread: self.spread,
            spread_category: SpreadCategory::of(self.spread as int),
            opened_at_ns: self.opened_at_ns,
        }
    }

    /// The record of the window's close at the given time.
    pub open spec fn close_event(self, market_id: Seq<char>, closed_at_ns: u64) -> WindowCloseEventView {
        let labels = classify_spec(self.observables());
        WindowCloseEventView {
            market_id,
            yes_ask: self.yes_ask,
            no_ask: self.no_ask,
            spread: self.spread,
            spread_category: SpreadCategory::of(self.spread as int),
            opened_at_ns: self.opened_at_ns,
            closed_at_ns,
            duration_ns: if closed_at_ns >= self.opened_at_ns {
                (closed_at_ns - self.opened_at_ns) as u64
            } else {
                0
            },
            open_duration_class: labels.0,
            close_reason: labels.1,
            opportunity_class: opportunity_class_spec(labels.0, labels.1),
            observables: self.observables(),
        }
    }

    /// Computes [`ActiveWindow::fresh`].
    pub fn open_at(yes_ask: u32, no_ask: u32, at_ns: u64) -> (r: ActiveWindow)
        ensures
            r == ActiveWindow::fresh(yes_ask, no_ask, at_ns),
            r.wf(),
    {
        ActiveWindow {
            yes_ask,
            no_ask,
            spread: compute_spread(yes_ask, no_ask),
            opened_at_ns: at_ns,
            tick_count: 1,
            prev_yes_ask: yes_ask,
            prev_no_ask: no_ask,
            trade_event_fired: false,
            volume_change_ticks: 0,
            price_shift_ticks: 0,
            pending: true,
        }
    }

    /// Counts one more tick with a positive spread: the tick itself, a
    /// drift where an ask moved, and the confirmation where it is due.
    /// Returns whether this tick confirmed the window.
    pub fn advance(&mut self, yes_ask: u32, no_ask: u32) -> (confirmed: bool)
        ensures
            *final(self) == old(self).advanced(yes_ask, no_ask),
            confirmed == old(self).confirms(),
            old(self).wf() ==> final(self).wf(),
    {
        self.tick_count = self.tick_count.saturating_add(1);
        if yes_ask != self.prev_yes_ask || no_ask != self.prev_no_ask {
            self.price_shift_ticks = self.price_shift_ticks.saturating_add(1);
        }
        self.prev_yes_ask = yes_ask;
        self.prev_no_ask = no_ask;
        if self.pending && self.tick_count >= MIN_ARB_TICKS {
            self.pending = false;
            true
        } else {
            false
        }
    }

    /// Counts a trade on one of the window's tokens.
    pub fn record_trade(&mut self)
        ensures
            *final(self) == old(self).with_trade(),
            old(self).wf() ==> final(self).wf(),
    {
        if !self.trade_event_fired {
            self.trade_event_fired = true;
            self.volume_change_ticks = 1;
        } else {
            self.volume_change_ticks = self.volume_change_ticks.saturating_add(1);
        }
    }

    /// Freezes the counters of the window.
    pub fn freeze(&self) -> (r: WindowObservables)
        ensures
            r == self.observables(),
    {
        WindowObservables {
            tick_count: self.tick_count,
            trade_event_fired: self.trade_event_fired,
            volume_change_ticks: self.volume_change_ticks,
            price_shifted: self.price_shift_ticks > 1,
        }
    }
}

/// Builds the record of a window's confirmation.
pub fn open_event(market_id: String, window: &ActiveWindow) -> (r: WindowOpenEvent)
    ensures
        r@ == window.open_event(market_id@),
{
    WindowOpenEvent {
        market_id,
        yes_ask: window.yes_ask,
        no_ask: window.no_ask,
        spread: window.spread,
        spread_category: SpreadCategory::from_spread(window.spread),
        opened_at_ns: window.opened_at_ns,
    }
}

/// Builds the record of a window's close: freezes its counters and labels
/// them.
pub fn emit_close(market_id: String, window: &ActiveWindow, closed_at_ns: u64) -> (r:
    WindowCloseEvent)
    ensures
        r@ == window.close_event(market_id@, closed_at_ns),
{
    let duration_ns: u64 = closed_at_ns.saturating_sub(window.opened_at_ns);
    let obs = window.freeze();
    let (open_class, close_reason) = classify(&obs);
    let opp_class = opportunity_class(open_class, close_reason);
    WindowCloseEvent {
        market_id,
        yes_ask: window.yes_ask,
        no_ask: window.no_ask,
        spread: window.spread,
        spread_category: SpreadCategory::from_spread(window.spread),
        opened_at_ns: window.opened_at_ns,
        closed_at_ns,
        duration_ns,
        open_duration_class: open_class,
        close_reason,
        opportunity_class: opp_class,
        observables: obs,
    }
}

/// What a detector holds, as plain values.
pub struct DetectorView {
    /// market id -> its active window
    pub windows: Map<Seq<char>, ActiveWindow>,
    /// token id -> `(best ask, best bid)` of its last price message
    pub prices: Map<Seq<char>, (u32, u32)>,
    pub price_msgs_processed: u64,
    pub windows_opened: u64,
    pub windows_closed: u64,
    /// Greatest spread seen since the last diagnostics report.
    pub tightest_spread: Option<i64>,
    /// Whether the readiness report has been made.
    pub startup_logged: bool,
}

/// The greater of the spread seen so far and a new one.
pub open spec fn tighter(so_far: Option<i64>, spread: i64) -> Option<i64> {
    match so_far {
        Some(t) => if spread > t {
            Some(spread)
        } else {
            Some(t)
        },
        None => Some(spread),
    }
}

/// The view of an optional window record.
pub open spec fn event_view(e: Option<WindowEvent>) -> Option<WindowEventView> {
    match e {
        Some(ev) => Some(ev@),
        None => None,
    }
}

impl DetectorView {
    pub open spec fn empty() -> DetectorView {
        DetectorView {
            windows: Map::empty(),
            prices: Map::empty(),
            price_msgs_processed: 0,
            windows_opened: 0,
            windows_closed: 0,
            tightest_spread: None,
            startup_logged: false,
        }
    }

    /// Every active window has seen a tick and is pending exactly until
    /// confirmed.
    pub open spec fn wf(self) -> bool {
        forall|id: Seq<char>| #[trigger] self.windows.contains_key(id) ==> self.windows[id].wf()
    }

    /// Whether a market has a confirmed window.
    pub open spec fn is_open(self, id: Seq<char>) -> bool {
        self.windows.contains_key(id) && !self.windows[id].pending
    }

    /// The detector after one tick of a market whose two asks are known
    /// and positive, with the record that the tick emits.
    pub open spec fn after_tick(self, id: Seq<char>, yes_ask: u32, no_ask: u32, at_ns: u64) -> (
        DetectorView,
        Option<WindowEventView>,
    ) {
        let spread = spread_of(yes_ask, no_ask);
        let d = DetectorView { tightest_spread: tighter(self.tightest_spread, spread as i64), ..self };
        if spread > 0 {
            if !d.windows.contains_key(id) {
                (
                    DetectorView {
                        windows: d.windows.insert(id, ActiveWindow::fresh(yes_ask, no_ask, at_ns)),
                        ..d
                    },
                    None,
                )
            } else {
                let w = d.windows[id];
                let next = w.advanced(yes_ask, no_ask);
                if w.confirms() {
                    (
                        DetectorView {
                            windows: d.windows.insert(id, next),
                            windows_opened: bump64(d.windows_opened),
                            ..d
                        },
                        Some(WindowEventView::Open(next.open_event(id))),
                    )
                } else {
                    (DetectorView { windows: d.windows.insert(id, next), ..d }, None)
                }
            }
        } else {
            if d.windows.contains_key(id) {
                (
                    DetectorView {
                        windows: d.windows.remove(id),
                        windows_closed: bump64(d.windows_closed),
                        ..d
                    },
                    Some(WindowEventView::Close(d.windows[id].close_event(id, at_ns))),
                )
            } else {
                (d, None)
            }
        }
    }

    /// The detector after a price message, with the record that the
    /// message emits. The cache takes the message's prices whatever else
    /// holds. A tick follows where the token's market is known to the
    /// store and the cache holds a positive ask for both of its tokens.
    pub open spec fn after_price(
        self,
        store: StoreView,
        token: Seq<char>,
        best_ask: u32,
        best_bid: u32,
        at_ns: u64,
    ) -> (DetectorView, Option<WindowEventView>) {
        let d = DetectorView {
            prices: self.prices.insert(token, (best_ask, best_bid)),
            price_msgs_processed: bump64(self.price_msgs_processed),
            ..self
        };
        match store.market_for_token(token) {
            None => (d, None),
            Some((id, yes, no)) => {
                if d.prices.contains_key(yes) && d.prices.contains_key(no) && d.prices[yes].0 > 0
                    && d.prices[no].0 > 0 {
                    d.after_tick(id, d.prices[yes].0, d.prices[no].0, at_ns)
                } else {
                    (d, None)
                }
            },
        }
    }

    /// The detector after a trade on a token: the active window of the
    /// token's market, if it has one, counts the trade.
    pub open spec fn after_trade(self, store: StoreView, token: Seq<char>) -> DetectorView {
        match store.market_for_token(token) {
            None => self,
            Some((id, yes, no)) => {
                if self.windows.contains_key(id) {
                    DetectorView { windows: self.windows.insert(id, self.windows[id].with_trade()), ..self }
                } else {
                    self
                }
            },
        }
    }
}

/// Counters of the detector, as reported now and then.
#[derive(Debug, Clone, Copy, PartialEq, Eq, Structural)]
pub struct DetectorDiagnostics {
    pub price_msgs: u64,
    pub windows_opened: u64,
    pub windows_closed: u64,
    /// Number of active windows, pending ones included.
    pub active: usize,
    /// Greatest spread seen since the last report, if any tick was seen.
    pub tightest_spread: Option<i64>,
}

/// The spread detector.
pub struct SpreadDetector {
    active_windows: StringHashMap<ActiveWindow>,
    local_prices: StringHashMap<(u32, u32)>,
    price_msgs_processed: u64,
    windows_opened: u64,
    windows_closed: u64,
    tightest_spread: Option<i64>,
    startup_logged: bool,
}

/// The detector's readiness report.
#[derive(Debug, Clone, Copy, PartialEq, Eq, Structural)]
pub struct Readiness {
    pub total_markets: usize,
    /// Number of markets whose two tokens both have a positive cached ask
    /// in the store.
    pub hydrated_markets: usize,
    pub price_msgs_processed: u64,
}

impl View for SpreadDetector {
    type V = DetectorView;

    closed spec fn view(&self) -> DetectorView {
        DetectorView {
            windows: self.active_windows@,
            prices: self.local_prices@,
            price_msgs_processed: self.price_msgs_processed,
            windows_opened: self.windows_opened,
            windows_closed: self.windows_closed,
            tightest_spread: self.tightest_spread,
            startup_logged: self.startup_logged,
        }
    }
}

impl SpreadDetector {
    /// A detector without any window or cached price.
    pub fn new() -> (r: Self)
        ensures
            r@ == DetectorView::empty(),
            r@.wf(),
    {
        SpreadDetector {
            active_windows: StringHashMap::new(),
            local_prices: StringHashMap::new(),
            price_msgs_processed: 0,
            windows_opened: 0,
            windows_closed: 0,
            tightest_spread: None,
            startup_logged: false,
        }
    }

    /// One tick of the market `market_id` with the given asks.
    fn tick(&mut self, market_id: String, yes_ask: u32, no_ask: u32, at_ns: u64) -> (r: Option<
        WindowEvent,
    >)
        ensures
            (final(self)@, event_view(r)) == old(self)@.after_tick(market_id@, yes_ask, no_ask, at_ns),
            old(self)@.wf() ==> final(self)@.wf(),
    {
        let spread: i64 = compute_spread(yes_ask, no_ask);
        self.tightest_spread = match self.tightest_spread {
            Some(t) => if spread > t {
                Some(spread)
            } else {
                Some(t)
            },
            None => Some(spread),
        };
        let current: Option<ActiveWindow> = match self.active_windows.get(market_id.as_str()) {
            Some(w) => Some(*w),
            None => None,
        };
        let r = if spread > 0 {
            match current {
                None => {
                    self.active_windows.insert(
                        market_id,
                        ActiveWindow::open_at(yes_ask, no_ask, at_ns),
                    );
                    None
                },
                Some(w) => {
                    let mut window = w;
                    let confirmed = window.advance(yes_ask, no_ask);
                    self.active_windows.insert(market_id.clone(), window);
                    if confirmed {
                        self.windows_opened = self.windows_opened.saturating_add(1);
                        Some(WindowEvent::Open(open_event(market_id, &window)))
                    } else {
                        None
                    }
                },
            }
        } else {
            match current {
                Some(w) => {
                    self.windows_closed = self.windows_closed.saturating_add(1);
                    self.active_windows.remove(market_id.as_str());
                    Some(WindowEvent::Close(emit_close(market_id, &w, at_ns)))
                },
                None => None,
            }
        };
        proof {
            let expected = old(self)@.after_tick(market_id@, yes_ask, no_ask, at_ns);
            assert(final(self)@.windows =~= expected.0.windows);
            if old(self)@.wf() {
                assert forall|id: Seq<char>| #[trigger]
                    final(self)@.windows.contains_key(id) implies final(self)@.windows[id].wf() by {
                    if id != market_id@ {
                        assert(old(self)@.windows.contains_key(id));
                    } else if old(self)@.windows.contains_key(id) {
                        assert(old(self)@.windows[id].wf());
                    }
                }
            }
        }
        r
    }

    /// Takes one price message: writes its prices to the cache, then, where
    /// the token's market is known and both of its asks are cached and
    /// positive, runs one tick of that market's window. Returns the record
    /// to hand on, if the tick emits one.
    pub fn handle_price_change(&mut self, store: &MarketStore, msg: PriceChangeMsg) -> (r: Option<
        WindowEvent,
    >)
        ensures
            (final(self)@, event_view(r)) == old(self)@.after_price(
                store@,
                msg.asset_id@,
                msg.best_ask,
                msg.best_bid,
                msg.received_at_ns,
            ),
            final(self)@.prices == old(self)@.prices.insert(
                msg.asset_id@,
                (msg.best_ask, msg.best_bid),
            ),
            old(self)@.wf() ==> final(self)@.wf(),
    {
        self.price_msgs_processed = self.price_msgs_processed.saturating_add(1);
        self.local_prices.insert(msg.asset_id.clone(), (msg.best_ask, msg.best_bid));
        let (market_id, yes_token_id, no_token_id) = match store.get_market_for_token(
            msg.asset_id.as_str(),
        ) {
            Some(t) => t,
            None => {
                return None;
            },
        };
        let yes_ask: u32 = match self.local_prices.get(yes_token_id.as_str()) {
            Some(p) => p.0,
            None => {
                return None;
            },
        };
        let no_ask: u32 = match self.local_prices.get(no_token_id.as_str()) {
            Some(p) => p.0,
            None => {
                return None;
            },
        };
        if yes_ask == 0 || no_ask == 0 {
            return None;
        }
        self.tick(market_id, yes_ask, no_ask, msg.received_at_ns)
    }

    /// Takes one trade: the active window of the token's market, if it has
    /// one, counts it.
    pub fn handle_trade(&mut self, store: &MarketStore, trade: TradeMsg)
        ensures
            final(self)@ == old(self)@.after_trade(store@, trade.asset_id@),
            final(self)@.prices == old(self)@.prices,
            old(self)@.wf() ==> final(self)@.wf(),
    {
        match store.get_market_for_token(trade.asset_id.as_str()) {
            Some((market_id, _, _)) => {
                let current: Option<ActiveWindow> = match self.active_windows.get(
                    market_id.as_str(),
                ) {
                    Some(w) => Some(*w),
                    None => None,
                };
                match current {
                    Some(w) => {
                        let mut window = w;
                        window.record_trade();
                        self.active_windows.insert(market_id, window);
                        proof {
                            if old(self)@.wf() {
                                assert forall|id: Seq<char>| #[trigger]
                                    final(self)@.windows.contains_key(
                                        id,
                                    ) implies final(self)@.windows[id].wf() by {
                                    if id != market_id@ {
                                        assert(old(self)@.windows.contains_key(id));
                                    } else {
                                        assert(old(self)@.windows[id].wf());
                                    }
                                }
                            }
                        }
                    },
                    None => {},
                }
            },
            None => {},
        }
    }

    /// The active window of a market, if it has one.
    pub fn active_window(&self, market_id: &str) -> (r: Option<ActiveWindow>)
        ensures
            r == (if self@.windows.contains_key(market_id@) {
                Some(self@.windows[market_id@])
            } else {
                None
            }),
    {
        match self.active_windows.get(market_id) {
            Some(w) => Some(*w),
            None => None,
        }
    }

    /// The cached `(best ask, best bid)` of a token: those of the last
    /// price message for it.
    pub fn local_price(&self, asset_id: &str) -> (r: Option<(u32, u32)>)
        ensures
            r == (if self@.prices.contains_key(asset_id@) {
                Some(self@.prices[asset_id@])
            } else {
                None
            }),
    {
        match self.local_prices.get(asset_id) {
            Some(p) => Some(*p),
            None => None,
        }
    }

    /// Reports the counters and starts a new period for the tightest
    /// spread.
    pub fn take_diagnostics(&mut self) -> (r: DetectorDiagnostics)
        ensures
            final(self)@ == (DetectorView { tightest_spread: None, ..old(self)@ }),
            r.price_msgs == old(self)@.price_msgs_processed,
            r.windows_opened == old(self)@.windows_opened,
            r.windows_closed == old(self)@.windows_closed,
            r.active == old(self)@.windows.len(),
            r.tightest_spread == old(self)@.tightest_spread,
    {
        broadcast use vstd::hash_map::group_hash_map_axioms;

        let r = DetectorDiagnostics {
            price_msgs: self.price_msgs_processed,
            windows_opened: self.windows_opened,
            windows_closed: self.windows_closed,
            active: self.active_windows.len(),
            tightest_spread: self.tightest_spread,
        };
        self.tightest_spread = None;
        r
    }

    /// Reports the counters where a report is due: the last one is at
    /// least the report interval ago.
    pub fn maybe_log_diagnostics(&mut self, secs_since_last: u64) -> (r: Option<DetectorDiagnostics>)
        ensures
            secs_since_last < DIAGNOSTICS_EVERY_SECS ==> r is None && final(self)@ == old(self)@,
            secs_since_last >= DIAGNOSTICS_EVERY_SECS ==> r is Some && final(self)@ == (DetectorView {
                tightest_spread: None,
                ..old(self)@
            }) && r->0.tightest_spread == old(self)@.tightest_spread && r->0.price_msgs
                == old(self)@.price_msgs_processed && r->0.windows_opened
                == old(self)@.windows_opened && r->0.windows_closed == old(self)@.windows_closed
                && r->0.active == old(self)@.windows.len(),
    {
        if secs_since_last < DIAGNOSTICS_EVERY_SECS {
            None
        } else {
            Some(self.take_diagnostics())
        }
    }

    /// Makes the readiness report where it is due: once, as soon as the
    /// detector has run for the readiness time.
    pub fn maybe_log_readiness(&mut self, store: &MarketStore, elapsed_secs: u64) -> (r: Option<
        Readiness,
    >)
        ensures
            r is Some <==> !old(self)@.startup_logged && elapsed_secs >= READINESS_AFTER_SECS,
            final(self)@ == (DetectorView {
                startup_logged: old(self)@.startup_logged || r is Some,
                ..old(self)@
            }),
            r is Some ==> r->0.total_markets == store@.markets.dom().len()
                && r->0.hydrated_markets == store@.hydrated_ids().len()
                && r->0.price_msgs_processed == old(self)@.price_msgs_processed,
    {
        if self.startup_logged || elapsed_secs < READINESS_AFTER_SECS {
            return None;
        }
        self.startup_logged = true;
        Some(
            Readiness {
                total_markets: store.market_count(),
                hydrated_markets: store.hydrated_market_count(),
                price_msgs_processed: self.price_msgs_processed,
            },
        )
    }
}

} // verus!
