//! What holds of every run of the detector.

use vstd::prelude::*;
use crate::detector::{bump64, DetectorView};
use crate::store::StoreView;
use crate::types::{OpenDurationClass, WindowEventView};

verus! {

/// One message taken by the detector, with the store as it was when the
/// message was taken.
pub enum Input {
    Price { store: StoreView, token: Seq<char>, best_ask: u32, best_bid: u32, at_ns: u64 },
    Trade { store: StoreView, token: Seq<char> },
}

/// The detector after one message, and the records emitted so far.
pub open spec fn step(d: DetectorView, evs: Seq<WindowEventView>, input: Input) -> (
    DetectorView,
    Seq<WindowEventView>,
) {
    match input {
        Input::Price { store, token, best_ask, best_bid, at_ns } => {
            let next = d.after_price(store, token, best_ask, best_bid, at_ns);
            (
                next.0,
                match next.1 {
                    Some(e) => evs.push(e),
                    None => evs,
                },
            )
        },
        Input::Trade { store, token } => (d.after_trade(store, token), evs),
    }
}

/// The detector after a sequence of messages taken in order, starting from
/// `d`, with the records emitted on the way, in order.
pub open spec fn run(d: DetectorView, inputs: Seq<Input>) -> (DetectorView, Seq<WindowEventView>)
    decreases inputs.len(),
{
    if inputs.len() == 0 {
        (d, Seq::empty())
    } else {
        let before = run(d, inputs.drop_last());
        step(before.0, before.1, inputs.last())
    }
}

/// The open record of a market that still awaits its close record at the
/// end of `evs`, named by its `opened_at_ns`.
pub open spec fn awaiting(evs: Seq<WindowEventView>, id: Seq<char>) -> Option<u64>
    decreases evs.len(),
{
    if evs.len() == 0 {
        None
    } else {
        let before = awaiting(evs.drop_last(), id);
        match evs.last() {
            WindowEventView::Open(o) => if o.market_id == id {
                Some(o.opened_at_ns)
            } else {
                before
            },
            WindowEventView::Close(c) => if c.market_id == id {
                None
            } else {
                before
            },
        }
    }
}

/// Whether the records of one market come in order: an open record only
/// while none awaits its close; a close record of a confirmed window only
/// in answer to the open record that awaits it, with the same
/// `opened_at_ns`; any other close record only as single-tick noise.
pub open spec fn orderly(evs: Seq<WindowEventView>, id: Seq<char>) -> bool
    decreases evs.len(),
{
    if evs.len() == 0 {
        true
    } else {
        let before = awaiting(evs.drop_last(), id);
        &&& orderly(evs.drop_last(), id)
        &&& match evs.last() {
            WindowEventView::Open(o) => o.market_id == id ==> before is None,
            WindowEventView::Close(c) => c.market_id == id ==> (match before {
                Some(t) => c.opened_at_ns == t && c.open_duration_class
                    == OpenDurationClass::MultiTick,
                None => c.open_duration_class == OpenDurationClass::SingleTick,
            }),
        }
    }
}

/// Whether the open record that awaits its close is that of the market's
/// confirmed window, and none awaits where the market has no confirmed
/// window.
pub open spec fn in_step(d: DetectorView, evs: Seq<WindowEventView>, id: Seq<char>) -> bool {
    awaiting(evs, id) == (if d.is_open(id) {
        Some(d.windows[id].opened_at_ns)
    } else {
        None
    })
}

/// A tick keeps every window well formed.
pub proof fn lemma_tick_keeps_wf(d: DetectorView, id: Seq<char>, yes_ask: u32, no_ask: u32, at_ns: u64)
    requires
        d.wf(),
    ensures
        d.after_tick(id, yes_ask, no_ask, at_ns).0.wf(),
{
    let after = d.after_tick(id, yes_ask, no_ask, at_ns).0;
    assert forall|m: Seq<char>| #[trigger] after.windows.contains_key(m) implies after.windows[m].wf() by {
        if m != id {
            assert(d.windows.contains_key(m));
        } else if d.windows.contains_key(m) {
            assert(d.windows[m].wf());
        }
    }
}

/// Every active window has seen at least one tick and is pending exactly
/// while it has seen fewer than the confirming number: this holds at the
/// start and after every message.
pub proof fn lemma_step_keeps_wf(d: DetectorView, evs: Seq<WindowEventView>, input: Input)
    requires
        d.wf(),
    ensures
        step(d, evs, input).0.wf(),
{
    match input {
        Input::Price { store, token, best_ask, best_bid, at_ns } => {
            let c = DetectorView {
                prices: d.prices.insert(token, (best_ask, best_bid)),
                price_msgs_processed: bump64(d.price_msgs_processed),
                ..d
            };
            assert(c.wf());
            match store.market_for_token(token) {
                None => {},
                Some((id, yes, no)) => {
                    if c.prices.contains_key(yes) && c.prices.contains_key(no) && c.prices[yes].0
                        > 0 && c.prices[no].0 > 0 {
                        lemma_tick_keeps_wf(c, id, c.prices[yes].0, c.prices[no].0, at_ns);
                    }
                },
            }
        },
        Input::Trade { store, token } => {
            let after = d.after_trade(store, token);
            assert forall|m: Seq<char>| #[trigger]
                after.windows.contains_key(m) implies after.windows[m].wf() by {
                assert(d.windows.contains_key(m));
                assert(d.windows[m].wf());
            }
        },
    }
}

/// One tick keeps the records of every market in order and in step with
/// the windows.
proof fn lemma_tick_in_order(
    d: DetectorView,
    evs: Seq<WindowEventView>,
    mid: Seq<char>,
    yes_ask: u32,
    no_ask: u32,
    at_ns: u64,
    id: Seq<char>,
)
    requires
        d.wf(),
        orderly(evs, id),
        in_step(d, evs, id),
    ensures
        ({
            let next = d.after_tick(mid, yes_ask, no_ask, at_ns);
            let evs2 = match next.1 {
                Some(e) => evs.push(e),
                None => evs,
            };
            orderly(evs2, id) && in_step(next.0, evs2, id)
        }),
{
    let next = d.after_tick(mid, yes_ask, no_ask, at_ns);
    match next.1 {
        Some(e) => {
            let evs2 = evs.push(e);
            assert(evs2.drop_last() == evs);
            assert(evs2.last() == e);
            if d.windows.contains_key(mid) {
                assert(d.windows[mid].wf());
            }
        },
        None => {
            if d.windows.contains_key(mid) {
                assert(d.windows[mid].wf());
            }
        },
    }
}

/// One message keeps the records of every market in order and in step with
/// the windows.
proof fn lemma_step_in_order(d: DetectorView, evs: Seq<WindowEventView>, input: Input, id: Seq<char>)
    requires
        d.wf(),
        orderly(evs, id),
        in_step(d, evs, id),
    ensures
        orderly(step(d, evs, input).1, id),
        in_step(step(d, evs, input).0, step(d, evs, input).1, id),
{
    match input {
        Input::Price { store, token, best_ask, best_bid, at_ns } => {
            let c = DetectorView {
                prices: d.prices.insert(token, (best_ask, best_bid)),
                price_msgs_processed: bump64(d.price_msgs_processed),
                ..d
            };
            assert(c.wf());
            assert(in_step(c, evs, id));
            match store.market_for_token(token) {
                None => {},
                Some((mid, yes, no)) => {
                    if c.prices.contains_key(yes) && c.prices.contains_key(no) && c.prices[yes].0
                        > 0 && c.prices[no].0 > 0 {
                        lemma_tick_in_order(
                            c,
                            evs,
                            mid,
                            c.prices[yes].0,
                            c.prices[no].0,
                            at_ns,
                            id,
                        );
                    }
                },
            }
        },
        Input::Trade { store, token } => {
            if d.windows.contains_key(id) {
                assert(d.windows[id].wf());
            }
        },
    }
}

/// On every run from a state in which the records so far are in order:
/// the windows stay well formed, and the records of every market stay in
/// order and in step with its window.
pub proof fn lemma_run_from(d: DetectorView, inputs: Seq<Input>, id: Seq<char>)
    requires
        d.wf(),
        !d.is_open(id),
    ensures
        run(d, inputs).0.wf(),
        orderly(run(d, inputs).1, id),
        in_step(run(d, inputs).0, run(d, inputs).1, id),
    decreases inputs.len(),
{
    if inputs.len() > 0 {
        lemma_run_from(d, inputs.drop_last(), id);
        let before = run(d, inputs.drop_last());
        lemma_step_keeps_wf(before.0, before.1, inputs.last());
        lemma_step_in_order(before.0, before.1, inputs.last(), id);
    }
}

/// On every run of a fresh detector, the open and close records of each
/// market pair up: an open record is emitted only while no earlier one of
/// that market awaits its close; the next close record of that market then
/// answers it, carries the same `opened_at_ns` and is classed multi-tick;
/// and a close record that answers no open record is single-tick noise. At
/// the end of the run, an open record awaits its close exactly if its
/// window is still open.
pub proof fn lemma_opens_pair_with_closes(inputs: Seq<Input>, id: Seq<char>)
    ensures
        orderly(run(DetectorView::empty(), inputs).1, id),
        in_step(run(DetectorView::empty(), inputs).0, run(DetectorView::empty(), inputs).1, id),
        run(DetectorView::empty(), inputs).0.wf(),
{
    lemma_run_from(DetectorView::empty(), inputs, id);
}

/// The prices of the last price message for a token among `inputs`.
pub open spec fn last_price(inputs: Seq<Input>, token: Seq<char>) -> Option<(u32, u32)>
    decreases inputs.len(),
{
    if inputs.len() == 0 {
        None
    } else {
        match inputs.last() {
            Input::Price { store, token: t, best_ask, best_bid, at_ns } => if t == token {
                Some((best_ask, best_bid))
            } else {
                last_price(inputs.drop_last(), token)
            },
            Input::Trade { store, token: t } => last_price(inputs.drop_last(), token),
        }
    }
}

/// The detector's cache follows the price messages in their order: after
/// any run, the cache holds for each token the prices of the last price
/// message for it, whatever the store held; a token without any price
/// message is as it was before the run.
pub proof fn lemma_cache_holds_last_message(d: DetectorView, inputs: Seq<Input>, token: Seq<char>)
    ensures
        match last_price(inputs, token) {
            Some(p) => run(d, inputs).0.prices.contains_key(token) && run(d, inputs).0.prices[token]
                == p,
            None => run(d, inputs).0.prices.contains_key(token) == d.prices.contains_key(token)
                && (d.prices.contains_key(token) ==> run(d, inputs).0.prices[token]
                == d.prices[token]),
        },
    decreases inputs.len(),
{
    if inputs.len() > 0 {
        lemma_cache_holds_last_message(d, inputs.drop_last(), token);
        let before = run(d, inputs.drop_last());
        match inputs.last() {
            Input::Price { store, token: t, best_ask, best_bid, at_ns } => {
                let after = before.0.after_price(store, t, best_ask, best_bid, at_ns);
                assert(after.0.prices == before.0.prices.insert(t, (best_ask, best_bid)));
            },
            Input::Trade { store, token: t } => {
                assert(before.0.after_trade(store, t).prices == before.0.prices);
            },
        }
    }
}

} // verus!
