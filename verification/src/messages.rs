//! The frame decoder: from raw feed objects to the three kinds of event.
//!
//! A raw object carries every field that any kind of event may have, each
//! optional. Which fields count is decided by `event_type`.

use vstd::prelude::*;
use vstd::string::*;
use crate::decimal::{parse_price_key, price_key_of};
use crate::config::{
    PARSE_FAILURE_REPORT_EVERY, PARSE_FAILURE_REPORT_FIRST, PARSE_FAILURE_SAMPLE_BYTES,
};
use crate::isotime::{is_white_space, white_space};
use crate::text::{opt_view, str_eq};
use vstd::utf8::is_char_boundary;

verus! {

/// One price level of a book snapshot, as sent: decimal numerals.
#[derive(Debug, PartialEq, Eq)]
pub struct BookLevel {
    pub price: String,
    pub size: String,
}

/// One level change, as sent. Side `"SELL"` is the ask side, `"BUY"` the
/// bid side.
#[derive(Debug, PartialEq, Eq)]
pub struct BookChange {
    pub price: String,
    pub side: String,
    pub size: String,
}

/// One entry of the `price_changes` array of a price-change object.
#[derive(Debug, PartialEq, Eq)]
pub struct PriceChangeEntry {
    pub asset_id: String,
    pub price: String,
    pub size: String,
    pub side: String,
    pub best_bid: Option<String>,
    pub best_ask: Option<String>,
}

/// One raw feed object.
#[derive(Debug, PartialEq, Eq)]
pub struct RawBookMsg {
    pub event_type: Option<String>,
    /// On snapshots and trades.
    pub asset_id: Option<String>,
    pub asks: Option<Vec<BookLevel>>,
    pub bids: Option<Vec<BookLevel>>,
    /// On price changes: one entry per asset.
    pub price_changes: Option<Vec<PriceChangeEntry>>,
    /// On trades.
    pub price: Option<String>,
}

/// One decoded event.
#[derive(Debug, PartialEq, Eq)]
pub enum ParsedFrame {
    /// The whole book of one token.
    BookSnapshot { asset_id: String, asks: Vec<BookLevel>, bids: Vec<BookLevel> },
    /// One level change of one token, with the best prices that the server
    /// gave along, as price keys, where it gave any that can be read.
    BookPriceChange {
        asset_id: String,
        change: BookChange,
        best_bid: Option<u32>,
        best_ask: Option<u32>,
    },
    /// A trade, with its price as a price key.
    LastTradePrice { asset_id: String, price: u32 },
}

pub struct BookLevelView {
    pub price: Seq<char>,
    pub size: Seq<char>,
}

impl View for BookLevel {
    type V = BookLevelView;

    open spec fn view(&self) -> BookLevelView {
        BookLevelView { price: self.price@, size: self.size@ }
    }
}

impl Clone for BookLevel {
    fn clone(&self) -> (r: Self)
        ensures
            r == *self,
    {
        BookLevel { price: self.price.clone(), size: self.size.clone() }
    }
}

pub struct BookChangeView {
    pub price: Seq<char>,
    pub side: Seq<char>,
    pub size: Seq<char>,
}

impl View for BookChange {
    type V = BookChangeView;

    open spec fn view(&self) -> BookChangeView {
        BookChangeView { price: self.price@, side: self.side@, size: self.size@ }
    }
}

impl Clone for BookChange {
    fn clone(&self) -> (r: Self)
        ensures
            r == *self,
    {
        BookChange { price: self.price.clone(), side: self.side.clone(), size: self.size.clone() }
    }
}

pub struct PriceChangeEntryView {
    pub asset_id: Seq<char>,
    pub price: Seq<char>,
    pub size: Seq<char>,
    pub side: Seq<char>,
    pub best_bid: Option<Seq<char>>,
    pub best_ask: Option<Seq<char>>,
}

impl View for PriceChangeEntry {
    type V = PriceChangeEntryView;

    open spec fn view(&self) -> PriceChangeEntryView {
        PriceChangeEntryView {
            asset_id: self.asset_id@,
            price: self.price@,
            size: self.size@,
            side: self.side@,
            best_bid: opt_view(self.best_bid),
            best_ask: opt_view(self.best_ask),
        }
    }
}

/// The levels of a list as plain values.
pub open spec fn level_views(v: Seq<BookLevel>) -> Seq<BookLevelView> {
    v.map_values(|l: BookLevel| l@)
}

/// The entries of a list as plain values.
pub open spec fn entry_views(v: Seq<PriceChangeEntry>) -> Seq<PriceChangeEntryView> {
    v.map_values(|e: PriceChangeEntry| e@)
}

pub struct RawBookMsgView {
    pub event_type: Option<Seq<char>>,
    pub asset_id: Option<Seq<char>>,
    pub asks: Option<Seq<BookLevelView>>,
    pub bids: Option<Seq<BookLevelView>>,
    pub price_changes: Option<Seq<PriceChangeEntryView>>,
    pub price: Option<Seq<char>>,
}

impl View for RawBookMsg {
    type V = RawBookMsgView;

    open spec fn view(&self) -> RawBookMsgView {
        RawBookMsgView {
            event_type: opt_view(self.event_type),
            asset_id: opt_view(self.asset_id),
            asks: match self.asks {
                Some(v) => Some(level_views(v@)),
                None => None,
            },
            bids: match self.bids {
                Some(v) => Some(level_views(v@)),
                None => None,
            },
            price_changes: match self.price_changes {
                Some(v) => Some(entry_views(v@)),
                None => None,
            },
            price: opt_view(self.price),
        }
    }
}

pub enum ParsedFrameView {
    BookSnapshot { asset_id: Seq<char>, asks: Seq<BookLevelView>, bids: Seq<BookLevelView> },
    BookPriceChange {
        asset_id: Seq<char>,
        change: BookChangeView,
        best_bid: Option<u32>,
        best_ask: Option<u32>,
    },
    LastTradePrice { asset_id: Seq<char>, price: u32 },
}

impl View for ParsedFrame {
    type V = ParsedFrameView;

    open spec fn view(&self) -> ParsedFrameView {
        match self {
            ParsedFrame::BookSnapshot { asset_id, asks, bids } => ParsedFrameView::BookSnapshot {
                asset_id: asset_id@,
                asks: level_views(asks@),
                bids: level_views(bids@),
            },
            ParsedFrame::BookPriceChange {
                asset_id,
                change,
                best_bid,
                best_ask,
            } => ParsedFrameView::BookPriceChange {
                asset_id: asset_id@,
                change: change@,
                best_bid: *best_bid,
                best_ask: *best_ask,
            },
            ParsedFrame::LastTradePrice { asset_id, price } => ParsedFrameView::LastTradePrice {
                asset_id: asset_id@,
                price: *price,
            },
        }
    }
}

/// The frames of a list as plain values.
pub open spec fn frame_views(v: Seq<ParsedFrame>) -> Seq<ParsedFrameView> {
    v.map_values(|f: ParsedFrame| f@)
}

/// The price key that an optional numeral writes, if it writes one.
pub open spec fn opt_price_key(s: Option<Seq<char>>) -> Option<u32> {
    match s {
        Some(x) => price_key_of(x),
        None => None,
    }
}

/// The event that one entry of a price-change object stands for.
pub open spec fn entry_frame(e: PriceChangeEntryView) -> ParsedFrameView {
    ParsedFrameView::BookPriceChange {
        asset_id: e.asset_id,
        change: BookChangeView { price: e.price, side: e.side, size: e.size },
        best_bid: opt_price_key(e.best_bid),
        best_ask: opt_price_key(e.best_ask),
    }
}

/// The events that one raw object stands for, in order.
///
/// - `book`: the snapshot, where the object names its asset; a missing side
///   is an empty side.
/// - `price_change`: one event per entry, in the order of the entries.
/// - `last_trade_price`: the trade, where the object names its asset and a
///   price that can be read.
/// - anything else: nothing.
pub open spec fn frames_of(msg: RawBookMsgView) -> Seq<ParsedFrameView> {
    if msg.event_type == Some("book"@) {
        match msg.asset_id {
            Some(asset_id) => seq![
                ParsedFrameView::BookSnapshot {
                    asset_id,
                    asks: match msg.asks {
                        Some(a) => a,
                        None => Seq::empty(),
                    },
                    bids: match msg.bids {
                        Some(b) => b,
                        None => Seq::empty(),
                    },
                },
            ],
            None => Seq::empty(),
        }
    } else if msg.event_type == Some("price_change"@) {
        match msg.price_changes {
            Some(entries) => entries.map_values(|e: PriceChangeEntryView| entry_frame(e)),
            None => Seq::empty(),
        }
    } else if msg.event_type == Some("last_trade_price"@) {
        match (msg.asset_id, opt_price_key(msg.price)) {
            (Some(asset_id), Some(price)) => seq![ParsedFrameView::LastTradePrice { asset_id, price }],
            _ => Seq::empty(),
        }
    } else {
        Seq::empty()
    }
}

/// The events that a list of raw objects stands for, in order.
pub open spec fn frames_of_all(msgs: Seq<RawBookMsgView>) -> Seq<ParsedFrameView>
    decreases msgs.len(),
{
    if msgs.len() == 0 {
        Seq::empty()
    } else {
        frames_of_all(msgs.drop_last()) + frames_of(msgs.last())
    }
}

/// Reads an optional numeral as a price key.
fn parse_opt_price_key(s: &Option<String>) -> (r: Option<u32>)
    ensures
        r == opt_price_key(opt_view(*s)),
{
    match s {
        Some(x) => parse_price_key(x.as_str()),
        None => None,
    }
}

/// Whether an optional string is present and equal to `word`.
fn opt_is(s: &Option<String>, word: &str) -> (r: bool)
    ensures
        r == (opt_view(*s) == Some(word@)),
{
    match s {
        Some(x) => str_eq(x.as_str(), word),
        None => false,
    }
}

/// Appends to `out` the events that one raw object stands for.
pub fn expand_raw_msg(msg: RawBookMsg, out: &mut Vec<ParsedFrame>)
    ensures
        frame_views(final(out)@) == frame_views(old(out)@) + frames_of(msg@),
{
    let ghost before = frame_views(out@);
    let ghost mv = msg@;
    let RawBookMsg { event_type, asset_id, asks, bids, price_changes, price } = msg;
    if opt_is(&event_type, "book") {
        match asset_id {
            Some(asset_id) => {
                let asks: Vec<BookLevel> = match asks {
                    Some(a) => a,
                    None => Vec::new(),
                };
                let bids: Vec<BookLevel> = match bids {
                    Some(b) => b,
                    None => Vec::new(),
                };
                out.push(ParsedFrame::BookSnapshot { asset_id, asks, bids });
                proof {
                    assert(level_views(Seq::<BookLevel>::empty()) =~= Seq::empty());
                    assert(frame_views(out@) =~= before + frames_of(mv));
                }
            },
            None => {
                proof {
                    assert(frame_views(out@) =~= before + frames_of(mv));
                }
            },
        }
    } else if opt_is(&event_type, "price_change") {
        match price_changes {
            Some(entries) => {
                let mut i: usize = 0;
                while i < entries.len()
                    invariant
                        i <= entries.len(),
                        frame_views(out@) == before + entry_views(entries@).take(
                            i as int,
                        ).map_values(|e: PriceChangeEntryView| entry_frame(e)),
                    decreases entries.len() - i,
                {
                    let entry = &entries[i];
                    let best_bid = parse_opt_price_key(&entry.best_bid);
                    let best_ask = parse_opt_price_key(&entry.best_ask);
                    let change = BookChange {
                        price: entry.price.clone(),
                        side: entry.side.clone(),
                        size: entry.size.clone(),
                    };
                    let ghost prev = out@;
                    out.push(
                        ParsedFrame::BookPriceChange {
                            asset_id: entry.asset_id.clone(),
                            change,
                            best_bid,
                            best_ask,
                        },
                    );
                    proof {
                        let ev = entry_views(entries@);
                        assert(out@.last()@ == entry_frame(ev[i as int]));
                        assert(frame_views(out@) =~= frame_views(prev).push(out@.last()@));
                        assert(ev.take(i as int + 1).map_values(
                            |e: PriceChangeEntryView| entry_frame(e),
                        ) =~= ev.take(i as int).map_values(
                            |e: PriceChangeEntryView| entry_frame(e),
                        ).push(entry_frame(ev[i as int])));
                    }
                    i += 1;
                }
                proof {
                    let ev = entry_views(entries@);
                    assert(ev.take(entries.len() as int) =~= ev);
                }
            },
            None => {
                proof {
                    assert(frame_views(out@) =~= before + frames_of(mv));
                }
            },
        }
    } else if opt_is(&event_type, "last_trade_price") {
        let key = parse_opt_price_key(&price);
        match (asset_id, key) {
            (Some(asset_id), Some(price)) => {
                out.push(ParsedFrame::LastTradePrice { asset_id, price });
                proof {
                    assert(frame_views(out@) =~= before + frames_of(mv));
                }
            },
            _ => {
                proof {
                    assert(frame_views(out@) =~= before + frames_of(mv));
                }
            },
        }
    } else {
        proof {
            assert(frame_views(out@) =~= before + frames_of(mv));
        }
    }
}

/// The events that a list of raw objects stands for, in order.
pub fn expand_frames(msgs: Vec<RawBookMsg>) -> (r: Vec<ParsedFrame>)
    ensures
        frame_views(r@) == frames_of_all(msgs@.map_values(|m: RawBookMsg| m@)),
{
    let ghost mvs = msgs@.map_values(|m: RawBookMsg| m@);
    let ghost total = msgs@.len() as int;
    let mut msgs = msgs;
    let mut out: Vec<ParsedFrame> = Vec::new();
    let mut rest: Vec<RawBookMsg> = Vec::new();
    // Turn the list round, so that the objects can be taken out in order.
    while msgs.len() > 0
        invariant
            total == mvs.len(),
            msgs@.len() + rest@.len() == total,
            forall|j: int| 0 <= j < msgs@.len() ==> (#[trigger] msgs@[j])@ == mvs[j],
            forall|j: int| 0 <= j < rest@.len() ==> (#[trigger] rest@[j])@ == mvs[total - 1 - j],
        decreases msgs.len(),
    {
        let m = msgs.pop().unwrap();
        rest.push(m);
    }
    assert(frame_views(out@) =~= Seq::empty());
    while rest.len() > 0
        invariant
            rest@.len() <= total,
            total == mvs.len(),
            forall|j: int| 0 <= j < rest@.len() ==> (#[trigger] rest@[j])@ == mvs[total - 1 - j],
            frame_views(out@) == frames_of_all(mvs.take(total - rest@.len())),
        decreases rest.len(),
    {
        let ghost done = total - rest@.len();
        let ghost last = rest@[rest@.len() - 1];
        let m = rest.pop().unwrap();
        proof {
            assert(m == last);
            assert(m@ == mvs[done]);
            assert(mvs.take(done + 1).drop_last() =~= mvs.take(done));
            assert(mvs.take(done + 1).last() == mvs[done]);
        }
        expand_raw_msg(m, &mut out);
    }
    proof {
        assert(mvs.take(total) =~= mvs);
    }
    out
}

/// Whether a text frame holds a list of objects rather than one object:
/// its first character that is no white space is `[`.
pub open spec fn holds_array(raw: Seq<char>) -> bool {
    exists|k: int|
        0 <= k < raw.len() && raw[k] == '[' && forall|j: int|
            0 <= j < k ==> is_white_space(#[trigger] raw[j])
}

/// Decides whether a text frame is to be decoded as a list of objects.
pub fn is_array_frame(raw: &str) -> (r: bool)
    ensures
        r == holds_array(raw@),
{
    for c in it: raw.chars()
        invariant
            it.seq() == raw@,
            forall|j: int| 0 <= j < it.index() ==> is_white_space(#[trigger] raw@[j]),
    {
        if !white_space(c) {
            proof {
                let at = it.index() as int;
                assert(raw@[at] == c);
                if c != '[' {
                    assert forall|k: int|
                        0 <= k < raw@.len() && raw@[k] == '[' && (forall|j: int|
                            0 <= j < k ==> is_white_space(#[trigger] raw@[j])) implies false by {
                        if k > at {
                            assert(is_white_space(raw@[at]));
                        }
                    }
                }
            }
            return c == '[';
        }
    }
    false
}

/// Count of the text frames that could not be decoded. Counts modulo 2^64.
#[derive(Debug)]
pub struct ParseFailures {
    count: u64,
}

/// Whether the failure with the given count is reported: each of the first
/// few, and every so many-th after them.
pub open spec fn failure_reported(count: u64) -> bool {
    count <= PARSE_FAILURE_REPORT_FIRST || count % PARSE_FAILURE_REPORT_EVERY == 0
}

impl ParseFailures {
    pub closed spec fn count(&self) -> u64 {
        self.count
    }

    pub fn new() -> (r: Self)
        ensures
            r.count() == 0,
    {
        ParseFailures { count: 0 }
    }

    /// Number of failures counted so far.
    pub fn total(&self) -> (r: u64)
        ensures
            r == self.count(),
    {
        self.count
    }

    /// Counts one failure. Returns whether it is to be reported.
    pub fn record(&mut self) -> (report: bool)
        ensures
            final(self).count() == (if old(self).count() == u64::MAX {
                0
            } else {
                (old(self).count() + 1) as u64
            }),
            report == failure_reported(final(self).count()),
    {
        self.count = if self.count == u64::MAX {
            0
        } else {
            self.count + 1
        };
        self.count <= PARSE_FAILURE_REPORT_FIRST || self.count % PARSE_FAILURE_REPORT_EVERY == 0
    }
}

/// Whether `k` is where the sample of a frame ends: the last place at or
/// before the sample length, and within the frame, that does not fall
/// inside a character.
pub open spec fn is_sample_end(bytes: Seq<u8>, k: int) -> bool {
    &&& 0 <= k <= bytes.len()
    &&& k <= PARSE_FAILURE_SAMPLE_BYTES
    &&& is_char_boundary(bytes, k)
    &&& forall|j: int|
        k < j <= bytes.len() && j <= PARSE_FAILURE_SAMPLE_BYTES ==> !is_char_boundary(bytes, j)
}

/// The sample of a frame that could not be decoded: its start, up to the
/// sample length, cut back where that would fall inside a character.
pub fn failure_sample(raw: &str) -> (r: &str)
    ensures
        exists|k: int| #[trigger]
            is_sample_end(raw.spec_bytes(), k) && r.spec_bytes() == raw.spec_bytes().subrange(0, k),
{
    broadcast use vstd::utf8::group_utf8_lib;

    let n = raw.as_bytes().len();
    let mut k: usize = if n < PARSE_FAILURE_SAMPLE_BYTES {
        n
    } else {
        PARSE_FAILURE_SAMPLE_BYTES
    };
    while k > 0 && !raw.is_char_boundary(k)
        invariant
            k <= n,
            n == raw.spec_bytes().len(),
            k <= PARSE_FAILURE_SAMPLE_BYTES,
            forall|j: int|
                k < j <= n && j <= PARSE_FAILURE_SAMPLE_BYTES ==> !is_char_boundary(
                    raw.spec_bytes(),
                    j,
                ),
        decreases k,
    {
        k -= 1;
    }
    proof {
        assert(is_char_boundary(raw.spec_bytes(), k as int));
        assert(is_sample_end(raw.spec_bytes(), k as int));
    }
    let (head, _) = raw.split_at(k);
    head
}

} // verus!
