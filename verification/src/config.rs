//! Constants of the detection pipeline.

use vstd::prelude::*;

verus! {

/// Number of price keys in one whole unit of price: a key is a price in
/// ten-thousandths.
pub const PRICE_SCALE: u32 = 10_000;

/// Minimum number of consecutive ticks a positive spread must survive before
/// its window counts as open. A window closed with fewer ticks is noise.
pub const MIN_ARB_TICKS: u32 = 2;

/// Spreads below this many price keys are noise.
pub const NOISE_MAX: i64 = 200;

/// Spreads below this many price keys (and not noise) are small.
pub const SMALL_MAX: i64 = 500;

/// Spreads below this many price keys (and not small) are medium.
pub const MEDIUM_MAX: i64 = 1_000;

/// Capacity of every channel between the tasks of the pipeline.
pub const CHANNEL_CAPACITY: usize = 1024;

/// Largest number of asset ids carried by one subscribe frame.
pub const WS_SUBSCRIBE_CHUNK_SIZE: usize = 500;

/// Pause between two subscribe frames of one initial subscription, in
/// milliseconds.
pub const WS_SUBSCRIBE_CHUNK_PAUSE_MS: u64 = 50;

/// Interval of the transport heartbeat, in seconds.
pub const WS_PING_INTERVAL_SECS: u64 = 30;

/// Number of entries of the reconnect backoff table.
pub const RECONNECT_BACKOFF_STEPS: usize = 4;

/// A frame counter report is due every this many frames.
pub const FRAME_REPORT_EVERY: u64 = 500;

/// The first this many decode failures are each reported.
pub const PARSE_FAILURE_REPORT_FIRST: u64 = 10;

/// After the first ones, every this many-th decode failure is reported.
pub const PARSE_FAILURE_REPORT_EVERY: u64 = 1000;

/// Longest sample of an undecodable frame that is reported, in bytes.
pub const PARSE_FAILURE_SAMPLE_BYTES: usize = 500;

/// Seconds after its end during which a rolling market stays subscribed.
pub const EXPIRY_GRACE_SECS: u64 = 60;

/// Seconds before the end of the current rolling market, beyond its own
/// duration, at which the next one is subscribed as well.
pub const PRESUB_SECS: u64 = 30;

/// Seconds between two ticks of the pinned-market watcher.
pub const WATCHER_TICK_SECS: u64 = 10;

/// Seconds between two fetches of the catalog by the pinned-market watcher.
pub const CATALOG_REFETCH_SECS: u64 = 30;

/// Seconds after its start at which the detector reports its readiness,
/// once.
pub const READINESS_AFTER_SECS: u64 = 10;

/// Seconds between two reports of the detector's counters.
pub const DIAGNOSTICS_EVERY_SECS: u64 = 30;

/// Greatest number of markets in the detector's sample of hydrated markets.
pub const HYDRATION_SAMPLE_MAX: usize = 5;

/// Default cap on the number of subscribed markets.
pub const DEFAULT_MAX_MARKETS: usize = 200;

} // verus!
