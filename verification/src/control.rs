//! The subscription controller: the wire frames that subscribe and
//! unsubscribe tokens, and what a control message does to the book store.

use vstd::prelude::*;
use vstd::string::*;
use vstd::slice::slice_subrange;
use crate::config::{RECONNECT_BACKOFF_STEPS, WS_SUBSCRIBE_CHUNK_SIZE};
use crate::store::{MarketStore, StoreView};
use crate::text::views;
use crate::types::{market_views, ControlMsg, Market, MarketView};

verus! {

/// The JSON text of a string: the string between double quotes, with the
/// characters that JSON does not take as they are written as escapes.
pub uninterp spec fn json_string_text(s: Seq<char>) -> Seq<char>;

/// `serde_json::Value`'s `to_string` on a string value: its JSON text, in
/// the compact form.
#[verifier::external_body]
fn json_quote(s: &str) -> (r: String)
    ensures
        r@ == json_string_text(s@),
{
    serde_json::Value::from(s).to_string()
}

/// The JSON texts of the strings, separated by commas.
pub open spec fn json_items(ids: Seq<Seq<char>>) -> Seq<char>
    decreases ids.len(),
{
    if ids.len() == 0 {
        Seq::empty()
    } else if ids.len() == 1 {
        json_string_text(ids[0])
    } else {
        json_items(ids.drop_last()) + ","@ + json_string_text(ids.last())
    }
}

/// The compact JSON text of an array of strings.
pub open spec fn json_array_text(ids: Seq<Seq<char>>) -> Seq<char> {
    "["@ + json_items(ids) + "]"@
}

/// The subscribe frame for the given asset ids.
pub open spec fn subscribe_frame(ids: Seq<Seq<char>>) -> Seq<char> {
    "{\"assets_ids\":"@ + json_array_text(ids) + ",\"type\":\"market\"}"@
}

/// The unsubscribe frame for the given asset ids.
pub open spec fn unsubscribe_frame(ids: Seq<Seq<char>>) -> Seq<char> {
    "{\"assets_ids\":"@ + json_array_text(ids) + ",\"operation\":\"unsubscribe\"}"@
}

/// Writes an array of strings as compact JSON.
pub fn json_array(ids: &[String]) -> (r: String)
    ensures
        r@ == json_array_text(views(ids@)),
{
    let ghost vs = views(ids@);
    let mut items = String::new();
    let mut i: usize = 0;
    while i < ids.len()
        invariant
            i <= ids.len(),
            vs == views(ids@),
            items@ == json_items(vs.take(i as int)),
        decreases ids.len() - i,
    {
        proof {
            assert(vs.take(i as int + 1).drop_last() =~= vs.take(i as int));
            assert(vs.take(i as int + 1).last() == ids@[i as int]@);
            if i == 0 {
                assert(vs.take(1)[0] == ids@[0]@);
                assert(items@ =~= Seq::<char>::empty());
            }
        }
        if i > 0 {
            items.append(",");
        }
        let quoted = json_quote(ids[i].as_str());
        items.append(quoted.as_str());
        proof {
            if i == 0 {
                assert(items@ =~= json_string_text(ids@[0]@));
            }
        }
        i += 1;
    }
    proof {
        assert(vs.take(ids.len() as int) =~= vs);
    }
    let mut out = String::from_str("[");
    out.append(items.as_str());
    out.append("]");
    out
}

/// Builds the frame that subscribes the given asset ids.
pub fn build_subscribe_msg(asset_ids: &[String]) -> (r: String)
    ensures
        r@ == subscribe_frame(views(asset_ids@)),
{
    let array = json_array(asset_ids);
    let mut out = String::from_str("{\"assets_ids\":");
    out.append(array.as_str());
    out.append(",\"type\":\"market\"}");
    out
}

/// Builds the frame that unsubscribes the given asset ids.
pub fn build_unsubscribe_msg(asset_ids: &[String]) -> (r: String)
    ensures
        r@ == unsubscribe_frame(views(asset_ids@)),
{
    let array = json_array(asset_ids);
    let mut out = String::from_str("{\"assets_ids\":");
    out.append(array.as_str());
    out.append(",\"operation\":\"unsubscribe\"}");
    out
}

/// Number of frames that the initial subscription of `n` asset ids takes:
/// as few as hold at most a chunk of ids each.
pub open spec fn chunk_count(n: nat) -> int {
    (n + WS_SUBSCRIBE_CHUNK_SIZE as int - 1) / (WS_SUBSCRIBE_CHUNK_SIZE as int)
}

/// The asset ids of the `k`-th frame of an initial subscription.
pub open spec fn chunk(ids: Seq<Seq<char>>, k: int) -> Seq<Seq<char>> {
    let from = k * WS_SUBSCRIBE_CHUNK_SIZE as int;
    let to = if from + WS_SUBSCRIBE_CHUNK_SIZE as int <= ids.len() {
        from + WS_SUBSCRIBE_CHUNK_SIZE as int
    } else {
        ids.len() as int
    };
    ids.subrange(from, to)
}

/// The frames of an initial subscription: the asset ids in order, in
/// chunks of at most the chunk size; no frame for no ids.
pub fn subscribe_chunks(asset_ids: &Vec<String>) -> (r: Vec<String>)
    ensures
        r@.len() == chunk_count(asset_ids@.len()),
        forall|k: int|
            0 <= k < r@.len() ==> (#[trigger] r@[k])@ == subscribe_frame(
                chunk(views(asset_ids@), k),
            ),
{
    let n = asset_ids.len();
    let ghost vs = views(asset_ids@);
    let mut frames: Vec<String> = Vec::new();
    let mut from: usize = 0;
    while from < n
        invariant
            n == asset_ids@.len(),
            vs == views(asset_ids@),
            from <= n,
            from < n ==> from == frames@.len() * WS_SUBSCRIBE_CHUNK_SIZE,
            from == n ==> frames@.len() == chunk_count(n as nat),
            forall|k: int|
                0 <= k < frames@.len() ==> (#[trigger] frames@[k])@ == subscribe_frame(chunk(vs, k)),
        decreases n - from,
    {
        let to: usize = if n - from >= WS_SUBSCRIBE_CHUNK_SIZE {
            from + WS_SUBSCRIBE_CHUNK_SIZE
        } else {
            n
        };
        let part = slice_subrange(asset_ids.as_slice(), from, to);
        let frame = build_subscribe_msg(part);
        proof {
            let k = frames@.len() as int;
            assert(views(part@) =~= chunk(vs, k));
        }
        frames.push(frame);
        from = to;
    }
    frames
}

/// Whether the frames of an initial subscription are to be sent with a
/// pause after each: where there is more than one.
pub fn chunks_need_pause(total_chunks: usize) -> (r: bool)
    ensures
        r == (total_chunks > 1),
{
    total_chunks > 1
}

/// The asset ids of a list of markets: for each market in order, its YES
/// token, then its NO token.
pub open spec fn token_ids_of(markets: Seq<MarketView>) -> Seq<Seq<char>>
    decreases markets.len(),
{
    if markets.len() == 0 {
        Seq::empty()
    } else {
        token_ids_of(markets.drop_last()).push(markets.last().yes_token_id).push(
            markets.last().no_token_id,
        )
    }
}

/// Collects the asset ids of a list of markets.
pub fn collect_token_ids(markets: &Vec<Market>) -> (r: Vec<String>)
    ensures
        views(r@) == token_ids_of(market_views(markets@)),
{
    let ghost mv = market_views(markets@);
    let mut ids: Vec<String> = Vec::new();
    let mut i: usize = 0;
    assert(views(ids@) =~= Seq::empty());
    while i < markets.len()
        invariant
            i <= markets.len(),
            mv == market_views(markets@),
            views(ids@) == token_ids_of(mv.take(i as int)),
        decreases markets.len() - i,
    {
        let ghost prev = views(ids@);
        proof {
            assert(mv.take(i as int + 1).drop_last() =~= mv.take(i as int));
            assert(mv.take(i as int + 1).last() == markets@[i as int]@);
        }
        ids.push(markets[i].yes_token_id.clone());
        ids.push(markets[i].no_token_id.clone());
        proof {
            assert(views(ids@) =~= prev.push(markets@[i as int]@.yes_token_id).push(
                markets@[i as int]@.no_token_id,
            ));
        }
        i += 1;
    }
    proof {
        assert(mv.take(markets.len() as int) =~= mv);
    }
    ids
}

/// The store after a control message.
pub open spec fn after_control(store: StoreView, msg: ControlMsg) -> StoreView {
    match msg {
        ControlMsg::Subscribe(markets) => store.with_markets(market_views(markets@)),
        ControlMsg::Unsubscribe(id) => store.without_market(id@),
    }
}

/// The frame that a control message sends to the feed, if it sends one.
/// An unsubscribe names the two tokens that the store holds for the market
/// when the message is taken; for a market that the store does not hold,
/// nothing is sent.
pub open spec fn control_frame(store: StoreView, msg: ControlMsg) -> Option<Seq<char>> {
    match msg {
        ControlMsg::Subscribe(markets) => Some(
            subscribe_frame(token_ids_of(market_views(markets@))),
        ),
        ControlMsg::Unsubscribe(id) => if store.markets.contains_key(id@) {
            Some(
                unsubscribe_frame(
                    seq![store.markets[id@].yes_token_id, store.markets[id@].no_token_id],
                ),
            )
        } else {
            None
        },
    }
}

/// Takes one control message.
///
/// `Subscribe` adds the markets to the store and builds the subscribe frame
/// for their tokens. `Unsubscribe` looks the market's tokens up, builds the
/// unsubscribe frame for them, and only then removes the market from the
/// store: the frame is always built from the token ids that the store held.
pub fn handle_control(store: &mut MarketStore, msg: ControlMsg) -> (r: Option<String>)
    ensures
        final(store)@ == after_control(old(store)@, msg),
        match r {
            Some(frame) => control_frame(old(store)@, msg) == Some(frame@),
            None => control_frame(old(store)@, msg) is None,
        },
        msg is Unsubscribe ==> !final(store)@.markets.contains_key(msg->Unsubscribe_0@),
        old(store)@.wf() ==> final(store)@.wf(),
{
    match msg {
        ControlMsg::Subscribe(markets) => {
            let ids = collect_token_ids(&markets);
            let frame = build_subscribe_msg(ids.as_slice());
            store.add_markets(markets);
            Some(frame)
        },
        ControlMsg::Unsubscribe(market_id) => {
            let frame = match store.token_ids_for_market(market_id.as_str()) {
                Some(ids) => {
                    proof {
                        assert(views(ids@) =~= seq![
                            store@.markets[market_id@].yes_token_id,
                            store@.markets[market_id@].no_token_id,
                        ]);
                    }
                    Some(build_unsubscribe_msg(ids.as_slice()))
                },
                None => None,
            };
            store.remove_market(market_id.as_str());
            frame
        },
    }
}

/// Milliseconds to wait before the reconnect attempt at the given step of
/// the backoff table: 100, 200, 400, then 800 for good.
pub open spec fn backoff_ms(step: nat) -> u64 {
    if step == 0 {
        100
    } else if step == 1 {
        200
    } else if step == 2 {
        400
    } else {
        800
    }
}

/// Computes [`backoff_ms`].
pub fn reconnect_delay_ms(backoff_idx: usize) -> (r: u64)
    ensures
        r == backoff_ms(backoff_idx as nat),
{
    if backoff_idx == 0 {
        100
    } else if backoff_idx == 1 {
        200
    } else if backoff_idx == 2 {
        400
    } else {
        800
    }
}

/// What to do after a connection has ended while the backoff stood at
/// `backoff_idx`: how long to wait before connecting again, and where the
/// backoff stands then. A clean close starts the table over; the last step
/// is kept once reached.
pub fn backoff_step(backoff_idx: usize, closed_cleanly: bool) -> (r: (u64, usize))
    ensures
        r.0 == backoff_ms(
            if closed_cleanly {
                0nat
            } else {
                backoff_idx as nat
            },
        ),
        r.1 == (if closed_cleanly || backoff_idx == 0 {
            1usize
        } else if backoff_idx >= RECONNECT_BACKOFF_STEPS - 1 {
            (RECONNECT_BACKOFF_STEPS - 1) as usize
        } else {
            (backoff_idx + 1) as usize
        }),
{
    let base: usize = if closed_cleanly {
        0
    } else {
        backoff_idx
    };
    let next: usize = if base >= RECONNECT_BACKOFF_STEPS - 1 {
        RECONNECT_BACKOFF_STEPS - 1
    } else {
        base + 1
    };
    (reconnect_delay_ms(base), next)
}

} // verus!
