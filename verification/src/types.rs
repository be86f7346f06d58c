//! The records that travel between the stages of the pipeline.

use vstd::prelude::*;
use crate::config::{MEDIUM_MAX, NOISE_MAX, PRICE_SCALE, SMALL_MAX};

verus! {

/// Subject area of a market.
#[derive(Debug, Clone, Copy, PartialEq, Eq, Structural)]
pub enum Category {
    Sports,
    Weather,
    Crypto,
    Politics,
    Economics,
    Other,
}

impl Category {
    /// Lower-case tag of the category.
    pub open spec fn name_spec(self) -> Seq<char> {
        match self {
            Category::Sports => "sports"@,
            Category::Weather => "weather"@,
            Category::Crypto => "crypto"@,
            Category::Politics => "politics"@,
            Category::Economics => "economics"@,
            Category::Other => "other"@,
        }
    }

    /// Lower-case tag of the category.
    pub fn name(&self) -> (r: &'static str)
        ensures
            r@ == self.name_spec(),
    {
        match self {
            Category::Sports => "sports",
            Category::Weather => "weather",
            Category::Crypto => "crypto",
            Category::Politics => "politics",
            Category::Economics => "economics",
            Category::Other => "other",
        }
    }
}

/// A two-sided binary market. Immutable once created.
#[derive(Debug, PartialEq, Eq)]
pub struct Market {
    pub id: String,
    pub question: String,
    pub category: Category,
    pub end_date_iso: Option<String>,
    /// Lifetime traded volume in hundredths of a unit, where known.
    pub total_volume_cents: Option<u64>,
    pub yes_token_id: String,
    pub no_token_id: String,
}

/// A market as plain values.
pub struct MarketView {
    pub id: Seq<char>,
    pub question: Seq<char>,
    pub category: Category,
    pub end_date_iso: Option<Seq<char>>,
    pub total_volume_cents: Option<u64>,
    pub yes_token_id: Seq<char>,
    pub no_token_id: Seq<char>,
}

impl View for Market {
    type V = MarketView;

    open spec fn view(&self) -> MarketView {
        MarketView {
            id: self.id@,
            question: self.question@,
            category: self.category,
            end_date_iso: match self.end_date_iso {
                Some(s) => Some(s@),
                None => None,
            },
            total_volume_cents: self.total_volume_cents,
            yes_token_id: self.yes_token_id@,
            no_token_id: self.no_token_id@,
        }
    }
}

/// The markets of a list as plain values.
pub open spec fn market_views(markets: Seq<Market>) -> Seq<MarketView> {
    markets.map_values(|m: Market| m@)
}

impl Clone for Market {
    fn clone(&self) -> (r: Self)
        ensures
            r == *self,
    {
        let end_date_iso = match &self.end_date_iso {
            Some(s) => Some(s.clone()),
            None => None,
        };
        Market {
            id: self.id.clone(),
            question: self.question.clone(),
            category: self.category,
            end_date_iso,
            total_volume_cents: self.total_volume_cents,
            yes_token_id: self.yes_token_id.clone(),
            no_token_id: self.no_token_id.clone(),
        }
    }
}

/// The spread of a pair of asks, in price keys: what is left of one whole
/// unit after buying both sides. Positive inside an arbitrage window.
pub open spec fn spread_of(yes_ask: u32, no_ask: u32) -> int {
    PRICE_SCALE as int - (yes_ask as int + no_ask as int)
}

/// Computes [`spread_of`].
pub fn compute_spread(yes_ask: u32, no_ask: u32) -> (r: i64)
    ensures
        r as int == spread_of(yes_ask, no_ask),
{
    let total: i64 = yes_ask as i64 + no_ask as i64;
    PRICE_SCALE as i64 - total
}

/// Size class of a spread.
#[derive(Debug, Clone, Copy, PartialEq, Eq, Structural)]
pub enum SpreadCategory {
    /// Below two hundredths: not viable.
    Noise,
    /// From two hundredths up to five.
    Small,
    /// From five hundredths up to ten.
    Medium,
    /// Ten hundredths and more.
    Large,
}

impl SpreadCategory {
    /// The class of a spread given in price keys.
    pub open spec fn of(spread: int) -> SpreadCategory {
        if spread < NOISE_MAX as int {
            SpreadCategory::Noise
        } else if spread < SMALL_MAX as int {
            SpreadCategory::Small
        } else if spread < MEDIUM_MAX as int {
            SpreadCategory::Medium
        } else {
            SpreadCategory::Large
        }
    }

    /// Classifies a spread given in price keys.
    pub fn from_spread(spread: i64) -> (r: Self)
        ensures
            r == Self::of(spread as int),
    {
        if spread < NOISE_MAX {
            SpreadCategory::Noise
        } else if spread < SMALL_MAX {
            SpreadCategory::Small
        } else if spread < MEDIUM_MAX {
            SpreadCategory::Medium
        } else {
            SpreadCategory::Large
        }
    }

    /// Lower-case tag of the class.
    pub open spec fn name_spec(self) -> Seq<char> {
        match self {
            SpreadCategory::Noise => "noise"@,
            SpreadCategory::Small => "small"@,
            SpreadCategory::Medium => "medium"@,
            SpreadCategory::Large => "large"@,
        }
    }

    /// Lower-case tag of the class.
    pub fn name(&self) -> (r: &'static str)
        ensures
            r@ == self.name_spec(),
    {
        match self {
            SpreadCategory::Noise => "noise",
            SpreadCategory::Small => "small",
            SpreadCategory::Medium => "medium",
            SpreadCategory::Large => "large",
        }
    }
}

/// First axis of a closed window: did the spread survive long enough to be
/// a real order?
#[derive(Debug, Clone, Copy, PartialEq, Eq, Structural)]
pub enum OpenDurationClass {
    /// Closed before it was confirmed: noise.
    SingleTick,
    /// Survived the confirmation ticks.
    MultiTick,
}

impl OpenDurationClass {
    /// Snake-case tag of the class.
    pub open spec fn name_spec(self) -> Seq<char> {
        match self {
            OpenDurationClass::SingleTick => "single_tick"@,
            OpenDurationClass::MultiTick => "multi_tick"@,
        }
    }

    /// Snake-case tag of the class.
    pub fn name(&self) -> (r: &'static str)
        ensures
            r@ == self.name_spec(),
    {
        match self {
            OpenDurationClass::SingleTick => "single_tick",
            OpenDurationClass::MultiTick => "multi_tick",
        }
    }
}

/// Second axis of a closed window: why did it close?
#[derive(Debug, Clone, Copy, PartialEq, Eq, Structural)]
pub enum CloseReason {
    /// Trades were seen over several ticks.
    VolumeSpikeGradual,
    /// A single trade was seen.
    VolumeSpikeInstant,
    /// No trade, but the asks moved before the close.
    PriceDrift,
    /// No trade and no movement: the order was withdrawn.
    OrderVanished,
}

impl CloseReason {
    /// Snake-case tag of the reason.
    pub open spec fn name_spec(self) -> Seq<char> {
        match self {
            CloseReason::VolumeSpikeGradual => "volume_spike_gradual"@,
            CloseReason::VolumeSpikeInstant => "volume_spike_instant"@,
            CloseReason::PriceDrift => "price_drift"@,
            CloseReason::OrderVanished => "order_vanished"@,
        }
    }

    /// Snake-case tag of the reason.
    pub fn name(&self) -> (r: &'static str)
        ensures
            r@ == self.name_spec(),
    {
        match self {
            CloseReason::VolumeSpikeGradual => "volume_spike_gradual",
            CloseReason::VolumeSpikeInstant => "volume_spike_instant",
            CloseReason::PriceDrift => "price_drift",
            CloseReason::OrderVanished => "order_vanished",
        }
    }
}

/// Priority of a closed window: 0 is noise, 1 the best target, 4 the least.
pub open spec fn opportunity_class_spec(
    open_class: OpenDurationClass,
    close_reason: Option<CloseReason>,
) -> u8 {
    match (open_class, close_reason) {
        (OpenDurationClass::SingleTick, _) => 0u8,
        (OpenDurationClass::MultiTick, Some(CloseReason::VolumeSpikeGradual)) => 1u8,
        (OpenDurationClass::MultiTick, Some(CloseReason::PriceDrift)) => 2u8,
        (OpenDurationClass::MultiTick, Some(CloseReason::VolumeSpikeInstant)) => 3u8,
        (OpenDurationClass::MultiTick, Some(CloseReason::OrderVanished)) => 4u8,
        (OpenDurationClass::MultiTick, None) => 4u8,
    }
}

/// Computes [`opportunity_class_spec`].
pub fn opportunity_class(open_class: OpenDurationClass, close_reason: Option<CloseReason>) -> (r:
    u8)
    ensures
        r == opportunity_class_spec(open_class, close_reason),
        r <= 4,
{
    match (open_class, close_reason) {
        (OpenDurationClass::SingleTick, _) => 0,
        (OpenDurationClass::MultiTick, Some(CloseReason::VolumeSpikeGradual)) => 1,
        (OpenDurationClass::MultiTick, Some(CloseReason::PriceDrift)) => 2,
        (OpenDurationClass::MultiTick, Some(CloseReason::VolumeSpikeInstant)) => 3,
        (OpenDurationClass::MultiTick, Some(CloseReason::OrderVanished)) => 4,
        (OpenDurationClass::MultiTick, None) => 4,
    }
}

/// What was observed of a window, frozen when it closes.
#[derive(Debug, Clone, Copy, PartialEq, Eq, Structural)]
pub struct WindowObservables {
    pub tick_count: u32,
    /// Whether a trade was seen while the window was active.
    pub trade_event_fired: bool,
    /// Number of trades seen while the window was active.
    pub volume_change_ticks: u32,
    /// Whether the asks moved on more than one tick before the close.
    pub price_shifted: bool,
}

/// A window has been confirmed. Carries the prices of its first tick.
#[derive(Debug, Clone, PartialEq, Eq)]
pub struct WindowOpenEvent {
    pub market_id: String,
    pub yes_ask: u32,
    pub no_ask: u32,
    pub spread: i64,
    pub spread_category: SpreadCategory,
    /// Nanoseconds since the epoch at which the first tick was received.
    pub opened_at_ns: u64,
}

/// A window has closed, confirmed or not.
#[derive(Debug, Clone, PartialEq, Eq)]
pub struct WindowCloseEvent {
    pub market_id: String,
    pub yes_ask: u32,
    pub no_ask: u32,
    pub spread: i64,
    pub spread_category: SpreadCategory,
    pub opened_at_ns: u64,
    pub closed_at_ns: u64,
    /// `closed_at_ns - opened_at_ns`, or 0 where the clock went backwards.
    pub duration_ns: u64,
    pub open_duration_class: OpenDurationClass,
    pub close_reason: Option<CloseReason>,
    pub opportunity_class: u8,
    pub observables: WindowObservables,
}

/// A window-open record as plain values.
pub struct WindowOpenEventView {
    pub market_id: Seq<char>,
    pub yes_ask: u32,
    pub no_ask: u32,
    pub spread: i64,
    pub spread_category: SpreadCategory,
    pub opened_at_ns: u64,
}

impl View for WindowOpenEvent {
    type V = WindowOpenEventView;

    open spec fn view(&self) -> WindowOpenEventView {
        WindowOpenEventView {
            market_id: self.market_id@,
            yes_ask: self.yes_ask,
            no_ask: self.no_ask,
            spread: self.spread,
            spread_category: self.spread_category,
            opened_at_ns: self.opened_at_ns,
        }
    }
}

/// A window-close record as plain values.
pub struct WindowCloseEventView {
    pub market_id: Seq<char>,
    pub yes_ask: u32,
    pub no_ask: u32,
    pub spread: i64,
    pub spread_category: SpreadCategory,
    pub opened_at_ns: u64,
    pub closed_at_ns: u64,
    pub duration_ns: u64,
    pub open_duration_class: OpenDurationClass,
    pub close_reason: Option<CloseReason>,
    pub opportunity_class: u8,
    pub observables: WindowObservables,
}

impl View for WindowCloseEvent {
    type V = WindowCloseEventView;

    open spec fn view(&self) -> WindowCloseEventView {
        WindowCloseEventView {
            market_id: self.market_id@,
            yes_ask: self.yes_ask,
            no_ask: self.no_ask,
            spread: self.spread,
            spread_category: self.spread_category,
            opened_at_ns: self.opened_at_ns,
            closed_at_ns: self.closed_at_ns,
            duration_ns: self.duration_ns,
            open_duration_class: self.open_duration_class,
            close_reason: self.close_reason,
            opportunity_class: self.opportunity_class,
            observables: self.observables,
        }
    }
}

/// A window record as plain values.
pub enum WindowEventView {
    Open(WindowOpenEventView),
    Close(WindowCloseEventView),
}

impl View for WindowEvent {
    type V = WindowEventView;

    open spec fn view(&self) -> WindowEventView {
        match self {
            WindowEvent::Open(e) => WindowEventView::Open(e@),
            WindowEvent::Close(e) => WindowEventView::Close(e@),
        }
    }
}

/// What the detector hands to its consumer.
#[derive(Debug, Clone, PartialEq, Eq)]
pub enum WindowEvent {
    Open(WindowOpenEvent),
    Close(WindowCloseEvent),
}

/// The best prices of one token after a book update, as routed to the
/// detector.
#[derive(Debug, Clone, PartialEq, Eq)]
pub struct PriceChangeMsg {
    pub asset_id: String,
    pub best_ask: u32,
    pub best_bid: u32,
    /// Nanoseconds since the epoch at which the update was received.
    pub received_at_ns: u64,
}

/// A trade on one token, as routed to the detector.
#[derive(Debug, Clone, PartialEq, Eq)]
pub struct TradeMsg {
    pub asset_id: String,
    pub price: u32,
    pub received_at_ns: u64,
}

/// A price message as plain values.
pub struct PriceChangeMsgView {
    pub asset_id: Seq<char>,
    pub best_ask: u32,
    pub best_bid: u32,
    pub received_at_ns: u64,
}

impl View for PriceChangeMsg {
    type V = PriceChangeMsgView;

    open spec fn view(&self) -> PriceChangeMsgView {
        PriceChangeMsgView {
            asset_id: self.asset_id@,
            best_ask: self.best_ask,
            best_bid: self.best_bid,
            received_at_ns: self.received_at_ns,
        }
    }
}

/// A trade message as plain values.
pub struct TradeMsgView {
    pub asset_id: Seq<char>,
    pub price: u32,
    pub received_at_ns: u64,
}

impl View for TradeMsg {
    type V = TradeMsgView;

    open spec fn view(&self) -> TradeMsgView {
        TradeMsgView {
            asset_id: self.asset_id@,
            price: self.price,
            received_at_ns: self.received_at_ns,
        }
    }
}

/// A request to change the set of tracked markets.
#[derive(Debug)]
pub enum ControlMsg {
    Subscribe(Vec<Market>),
    Unsubscribe(String),
}

} // verus!
