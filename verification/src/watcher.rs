//! The pinned-market watcher: which of the short-lived rolling markets are
//! to be subscribed at a given time.
//!
//! For each slug prefix the watcher wants the current market, the one that
//! ends first among those not yet past their grace period, and, shortly
//! before the current one ends, the next one as well. Of two markets that
//! end at the same time, the one that is listed first comes first.

use vstd::prelude::*;
use vstd::string::*;
use crate::catalog::{
    parse_gamma_market_unfiltered, parse_prefix_duration_secs, parse_slug_end_ts,
    prefix_duration_secs, slug_end_ts, unfiltered_market, GammaMarket,
};
use crate::config::{CATALOG_REFETCH_SECS, EXPIRY_GRACE_SECS, PRESUB_SECS};
use crate::text::{
    contains_str, distinct, holds, str_eq, to_chars, views,
};
use crate::store::{MarketStore, StoreView};
use crate::types::{market_views, ControlMsg, Market, MarketView};

verus! {

/// A rolling market of the catalog, with the slug prefix that it matched
/// and the end that its slug gives.
#[derive(Debug)]
pub struct KnownPinned {
    pub market: Market,
    pub prefix: String,
    /// Seconds since the epoch at which the market ends.
    pub end_ts: u64,
}

/// Whether a market is not yet past its grace period.
pub open spec fn is_active(k: KnownPinned, now: u64) -> bool {
    k.end_ts + EXPIRY_GRACE_SECS > now
}

/// Whether market `j` comes before market `i`: it ends earlier, or at the
/// same time while standing earlier among the known markets.
pub open spec fn precedes(known: Seq<KnownPinned>, j: int, i: int) -> bool {
    known[j].end_ts < known[i].end_ts || (known[j].end_ts == known[i].end_ts && j < i)
}

/// Whether market `j` is an active market of the prefix of market `i` that
/// comes before it.
pub open spec fn is_pred(known: Seq<KnownPinned>, j: int, i: int, now: u64) -> bool {
    &&& 0 <= j < known.len()
    &&& j != i
    &&& is_active(known[j], now)
    &&& known[j].prefix@ == known[i].prefix@
    &&& precedes(known, j, i)
}

/// Whether the market after the current one is due: the current one ends
/// within the pre-subscription time plus one duration of its prefix.
pub open spec fn presub_due(current: KnownPinned, now: u64) -> bool {
    (if current.end_ts >= now {
        current.end_ts - now
    } else {
        0
    }) <= PRESUB_SECS + prefix_duration_secs(current.prefix@)
}

/// Whether market `i` is wanted: it is active and either the current one of
/// its prefix, with no active market of the prefix before it, or the next
/// one, with the current one alone before it, while that one is about to
/// end.
pub open spec fn wanted(known: Seq<KnownPinned>, i: int, now: u64) -> bool {
    &&& 0 <= i < known.len()
    &&& is_active(known[i], now)
    &&& ((forall|j: int| !is_pred(known, j, i, now)) || (exists|j: int| #[trigger]
        is_pred(known, j, i, now) && presub_due(known[j], now) && forall|k: int|
            is_pred(known, k, i, now) ==> k == j))
}

/// Whether the market with the given id is wanted.
pub open spec fn id_wanted(known: Seq<KnownPinned>, id: Seq<char>, now: u64) -> bool {
    exists|i: int| 0 <= i < known.len() && (#[trigger] known[i]).market.id@ == id && wanted(known, i, now)
}

/// Whether no market id occurs twice.
pub open spec fn distinct_ids(known: Seq<KnownPinned>) -> bool {
    forall|i: int, j: int|
        0 <= i < j < known.len() ==> (#[trigger] known[i]).market.id@ != (#[trigger] known[j]).market.id@
}

fn active_at(k: &KnownPinned, now: u64) -> (r: bool)
    ensures
        r == is_active(*k, now),
{
    k.end_ts >= now || now - k.end_ts < EXPIRY_GRACE_SECS
}

fn due_at(current: &KnownPinned, now: u64) -> (r: bool)
    ensures
        r == presub_due(*current, now),
{
    let until: u64 = current.end_ts.saturating_sub(now);
    let duration = parse_prefix_duration_secs(current.prefix.as_str());
    match PRESUB_SECS.checked_add(duration) {
        Some(limit) => until <= limit,
        None => true,
    }
}

/// Decides whether market `i` is wanted.
pub fn is_wanted(known: &Vec<KnownPinned>, i: usize, now: u64) -> (r: bool)
    requires
        i < known.len(),
    ensures
        r == wanted(known@, i as int, now),
{
    if !active_at(&known[i], now) {
        return false;
    }
    let mut before: usize = 0;
    let mut found: usize = 0;
    let mut j: usize = 0;
    while j < known.len()
        invariant
            j <= known.len(),
            i < known.len(),
            before <= 1,
            before == 0 ==> forall|k: int| 0 <= k < j ==> !is_pred(known@, k, i as int, now),
            before == 1 ==> found < j && is_pred(known@, found as int, i as int, now) && forall|
                k: int,
            | 0 <= k < j && is_pred(known@, k, i as int, now) ==> k == found,
        decreases known.len() - j,
    {
        let pred = j != i && active_at(&known[j], now) && str_eq(
            known[j].prefix.as_str(),
            known[i].prefix.as_str(),
        ) && (known[j].end_ts < known[i].end_ts || (known[j].end_ts == known[i].end_ts && j < i));
        assert(pred == is_pred(known@, j as int, i as int, now));
        if pred {
            if before == 1 {
                proof {
                    assert(is_pred(known@, found as int, i as int, now));
                    assert(is_pred(known@, j as int, i as int, now));
                    assert forall|c: int| #[trigger]
                        is_pred(known@, c, i as int, now) && presub_due(known@[c], now) && (forall|
                        k: int,
                    | is_pred(known@, k, i as int, now) ==> k == c) implies false by {
                        assert(found as int == c);
                        assert(j as int == c);
                    }
                }
                return false;
            }
            before = 1;
            found = j;
        }
        j += 1;
    }
    if before == 0 {
        true
    } else {
        let due = due_at(&known[found], now);
        proof {
            if due {
                assert(is_pred(known@, found as int, i as int, now) && presub_due(
                    known@[found as int],
                    now,
                ));
            } else {
                assert forall|c: int| #[trigger]
                    is_pred(known@, c, i as int, now) && presub_due(known@[c], now) && (forall|
                    k: int,
                | is_pred(known@, k, i as int, now) ==> k == c) implies false by {
                    assert(c == found);
                }
            }
        }
        due
    }
}

/// Decides whether the market with the given id is wanted.
pub fn is_id_wanted(known: &Vec<KnownPinned>, id: &str, now: u64) -> (r: bool)
    ensures
        r == id_wanted(known@, id@, now),
{
    let mut i: usize = 0;
    while i < known.len()
        invariant
            i <= known.len(),
            forall|k: int|
                0 <= k < i ==> !((#[trigger] known@[k]).market.id@ == id@ && wanted(known@, k, now)),
        decreases known.len() - i,
    {
        if str_eq(known[i].market.id.as_str(), id) && is_wanted(known, i, now) {
            return true;
        }
        i += 1;
    }
    false
}

/// The markets to subscribe among the first `k` known ones: those wanted
/// and not yet subscribed, in the order in which they are known.
pub open spec fn new_markets(known: Seq<KnownPinned>, subscribed: Seq<String>, now: u64, k: nat) -> Seq<
    MarketView,
>
    decreases k,
{
    if k == 0 {
        Seq::empty()
    } else {
        let rest = new_markets(known, subscribed, now, (k - 1) as nat);
        if wanted(known, k - 1, now) && !holds(subscribed, known[k - 1].market.id@) {
            rest.push(known[k - 1].market@)
        } else {
            rest
        }
    }
}

/// The ids to unsubscribe among the first `k` subscribed ones: those no
/// longer wanted, in the order in which they were subscribed.
pub open spec fn dropped_ids(known: Seq<KnownPinned>, subscribed: Seq<String>, now: u64, k: nat) -> Seq<
    Seq<char>,
>
    decreases k,
{
    if k == 0 {
        Seq::empty()
    } else {
        let rest = dropped_ids(known, subscribed, now, (k - 1) as nat);
        if !id_wanted(known, subscribed[k - 1]@, now) {
            rest.push(subscribed[k - 1]@)
        } else {
            rest
        }
    }
}

/// The ids that stay subscribed among the first `k` subscribed ones: those
/// still wanted, in the order in which they were subscribed.
pub open spec fn kept_ids(known: Seq<KnownPinned>, subscribed: Seq<String>, now: u64, k: nat) -> Seq<
    Seq<char>,
>
    decreases k,
{
    if k == 0 {
        Seq::empty()
    } else {
        let rest = kept_ids(known, subscribed, now, (k - 1) as nat);
        if id_wanted(known, subscribed[k - 1]@, now) {
            rest.push(subscribed[k - 1]@)
        } else {
            rest
        }
    }
}

/// The ids of a list of markets.
pub open spec fn ids_of(ms: Seq<MarketView>) -> Seq<Seq<char>> {
    ms.map_values(|m: MarketView| m.id)
}

/// The store with the given markets added and pinned, in order.
pub open spec fn with_pinned_markets(store: StoreView, ms: Seq<MarketView>) -> StoreView
    decreases ms.len(),
{
    if ms.len() == 0 {
        store
    } else {
        with_pinned_markets(store, ms.drop_last()).with_market(ms.last()).with_pin(ms.last().id)
    }
}

/// Picks the markets to subscribe.
fn pick_new(known: &Vec<KnownPinned>, subscribed: &Vec<String>, now: u64) -> (r: Vec<Market>)
    ensures
        market_views(r@) == new_markets(known@, subscribed@, now, known@.len()),
{
    let mut out: Vec<Market> = Vec::new();
    let mut i: usize = 0;
    assert(market_views(out@) =~= Seq::empty());
    while i < known.len()
        invariant
            i <= known.len(),
            market_views(out@) == new_markets(known@, subscribed@, now, i as nat),
        decreases known.len() - i,
    {
        if is_wanted(known, i, now) && !contains_str(subscribed, known[i].market.id.as_str()) {
            let ghost prev = market_views(out@);
            out.push(known[i].market.clone());
            proof {
                assert(market_views(out@) =~= prev.push(known@[i as int].market@));
            }
        }
        i += 1;
    }
    out
}

/// Parts the subscribed ids into those that stay and those to unsubscribe.
fn split_subscribed(known: &Vec<KnownPinned>, subscribed: &Vec<String>, now: u64) -> (r: (
    Vec<String>,
    Vec<String>,
))
    ensures
        views(r.0@) == kept_ids(known@, subscribed@, now, subscribed@.len()),
        views(r.1@) == dropped_ids(known@, subscribed@, now, subscribed@.len()),
{
    let mut kept: Vec<String> = Vec::new();
    let mut dropped: Vec<String> = Vec::new();
    let mut i: usize = 0;
    assert(views(kept@) =~= Seq::empty());
    assert(views(dropped@) =~= Seq::empty());
    while i < subscribed.len()
        invariant
            i <= subscribed.len(),
            views(kept@) == kept_ids(known@, subscribed@, now, i as nat),
            views(dropped@) == dropped_ids(known@, subscribed@, now, i as nat),
        decreases subscribed.len() - i,
    {
        let ghost pk = views(kept@);
        let ghost pd = views(dropped@);
        if is_id_wanted(known, subscribed[i].as_str(), now) {
            kept.push(subscribed[i].clone());
            proof {
                assert(views(kept@) =~= pk.push(subscribed@[i as int]@));
            }
        } else {
            dropped.push(subscribed[i].clone());
            proof {
                assert(views(dropped@) =~= pd.push(subscribed@[i as int]@));
            }
        }
        i += 1;
    }
    (kept, dropped)
}

/// Adds and pins the given markets, and notes their ids as subscribed.
fn add_pinned(store: &mut MarketStore, to_add: &Vec<Market>, subscribed: &mut Vec<String>)
    ensures
        final(store)@ == with_pinned_markets(old(store)@, market_views(to_add@)),
        views(final(subscribed)@) == views(old(subscribed)@) + ids_of(market_views(to_add@)),
        old(store)@.wf() ==> final(store)@.wf(),
{
    let ghost ms = market_views(to_add@);
    let ghost s0 = views(subscribed@);
    let mut i: usize = 0;
    assert(s0 + ids_of(ms.take(0)) =~= s0);
    while i < to_add.len()
        invariant
            i <= to_add.len(),
            ms == market_views(to_add@),
            store@ == with_pinned_markets(old(store)@, ms.take(i as int)),
            views(subscribed@) == s0 + ids_of(ms.take(i as int)),
            old(store)@.wf() ==> store@.wf(),
        decreases to_add.len() - i,
    {
        let ghost prev = views(subscribed@);
        proof {
            assert(ms.take(i as int + 1).drop_last() =~= ms.take(i as int));
            assert(ms.take(i as int + 1).last() == to_add@[i as int]@);
        }
        store.add_market(to_add[i].clone());
        store.pin_market(to_add[i].id.as_str());
        subscribed.push(to_add[i].id.clone());
        proof {
            assert(views(subscribed@) =~= prev.push(to_add@[i as int]@.id));
            assert(ids_of(ms.take(i as int + 1)) =~= ids_of(ms.take(i as int)).push(
                to_add@[i as int]@.id,
            ));
            assert(s0 + ids_of(ms.take(i as int + 1)) =~= (s0 + ids_of(ms.take(i as int))).push(
                to_add@[i as int]@.id,
            ));
        }
        i += 1;
    }
    proof {
        assert(ms.take(to_add.len() as int) =~= ms);
    }
}

/// Whether a control message is the unsubscription of a market.
pub open spec fn is_unsubscribe_of(msg: ControlMsg, id: Seq<char>) -> bool {
    match msg {
        ControlMsg::Unsubscribe(m) => m@ == id,
        ControlMsg::Subscribe(_) => false,
    }
}

/// Whether a control message is the subscription of the given markets.
pub open spec fn is_subscribe_of(msg: ControlMsg, ms: Seq<MarketView>) -> bool {
    match msg {
        ControlMsg::Subscribe(v) => market_views(v@) == ms,
        ControlMsg::Unsubscribe(_) => false,
    }
}

/// Whether `msgs` is the subscription of the markets `add`, if there are
/// any, followed by the unsubscription of each of the ids `drop`, in order.
pub open spec fn is_plan(msgs: Seq<ControlMsg>, add: Seq<MarketView>, drop: Seq<Seq<char>>) -> bool {
    if add.len() > 0 {
        &&& msgs.len() == 1 + drop.len()
        &&& is_subscribe_of(msgs[0], add)
        &&& forall|k: int|
            #![trigger drop[k]]
            0 <= k < drop.len() ==> is_unsubscribe_of(msgs[k + 1], drop[k])
    } else {
        &&& msgs.len() == drop.len()
        &&& forall|k: int|
            #![trigger drop[k]]
            #![trigger msgs[k]]
            0 <= k < drop.len() ==> is_unsubscribe_of(msgs[k], drop[k])
    }
}

/// Builds the control messages of a plan.
pub fn plan_messages(to_add: Vec<Market>, to_drop: Vec<String>) -> (msgs: Vec<ControlMsg>)
    ensures
        is_plan(msgs@, market_views(to_add@), views(to_drop@)),
{
    let ghost add = market_views(to_add@);
    let ghost dv = views(to_drop@);
    let mut msgs: Vec<ControlMsg> = Vec::new();
    let lead: usize = if to_add.len() > 0 {
        1
    } else {
        0
    };
    if to_add.len() > 0 {
        msgs.push(ControlMsg::Subscribe(to_add));
    }
    let mut i: usize = 0;
    while i < to_drop.len()
        invariant
            i <= to_drop.len(),
            dv == views(to_drop@),
            lead <= 1,
            lead == 1 <==> add.len() > 0,
            msgs@.len() == lead + i,
            add.len() > 0 ==> is_subscribe_of(msgs@[0], add),
            forall|k: int| #![trigger dv[k]] 0 <= k < i ==> is_unsubscribe_of(msgs@[k + lead], dv[k]),
        decreases to_drop.len() - i,
    {
        let ghost prev = msgs@;
        msgs.push(ControlMsg::Unsubscribe(to_drop[i].clone()));
        proof {
            assert forall|k: int| #![trigger dv[k]] 0 <= k < i + 1 implies is_unsubscribe_of(
                msgs@[k + lead],
                dv[k],
            ) by {
                if k < i {
                    assert(msgs@[k + lead] == prev[k + lead]);
                }
            }
        }
        i += 1;
    }
    msgs
}

/// Whether nothing occurs twice in a list of ids.
pub open spec fn no_dups(ids: Seq<Seq<char>>) -> bool {
    forall|i: int, j: int| 0 <= i < j < ids.len() ==> #[trigger] ids[i] != #[trigger] ids[j]
}

/// The ids that stay subscribed are the subscribed ids that are wanted,
/// each once.
pub proof fn lemma_kept_ids(known: Seq<KnownPinned>, subscribed: Seq<String>, now: u64, k: nat)
    requires
        k <= subscribed.len(),
        distinct(subscribed),
    ensures
        no_dups(kept_ids(known, subscribed, now, k)),
        forall|id: Seq<char>| #[trigger]
            kept_ids(known, subscribed, now, k).contains(id) <==> (id_wanted(known, id, now)
                && exists|j: int| 0 <= j < k && (#[trigger] subscribed[j])@ == id),
    decreases k,
{
    if k > 0 {
        let rest = kept_ids(known, subscribed, now, (k - 1) as nat);
        let cur = kept_ids(known, subscribed, now, k);
        let last = subscribed[k - 1]@;
        lemma_kept_ids(known, subscribed, now, (k - 1) as nat);
        assert forall|id: Seq<char>| #[trigger]
            cur.contains(id) <==> (id_wanted(known, id, now) && exists|j: int|
                0 <= j < k && (#[trigger] subscribed[j])@ == id) by {
            if cur.contains(id) {
                let t = choose|t: int| 0 <= t < cur.len() && cur[t] == id;
                if t < rest.len() {
                    assert(rest[t] == id);
                    assert(rest.contains(id));
                    let j = choose|j: int| 0 <= j < k - 1 && (#[trigger] subscribed[j])@ == id;
                    assert(0 <= j < k && subscribed[j]@ == id);
                } else {
                    assert(id == last);
                    assert(subscribed[k - 1]@ == id);
                }
            }
            if id_wanted(known, id, now) && exists|j: int|
                0 <= j < k && (#[trigger] subscribed[j])@ == id {
                let j = choose|j: int| 0 <= j < k && (#[trigger] subscribed[j])@ == id;
                if j < k - 1 {
                    assert(rest.contains(id));
                    let t = choose|t: int| 0 <= t < rest.len() && rest[t] == id;
                    assert(cur[t] == id);
                } else {
                    assert(cur[cur.len() - 1] == id);
                }
            }
        }
        assert forall|i: int, j: int| 0 <= i < j < cur.len() implies #[trigger] cur[i]
            != #[trigger] cur[j] by {
            if j == rest.len() {
                assert(cur[j] == last);
                assert(cur[i] == rest[i]);
                if rest[i] == last {
                    assert(rest.contains(last));
                    let q = choose|q: int| 0 <= q < k - 1 && (#[trigger] subscribed[q])@ == last;
                    assert(subscribed[q]@ != subscribed[k - 1]@);
                }
            } else {
                assert(cur[i] == rest[i] && cur[j] == rest[j]);
            }
        }
    }
}

/// The markets to subscribe are the wanted markets that are not yet
/// subscribed, each once.
pub proof fn lemma_new_markets(known: Seq<KnownPinned>, subscribed: Seq<String>, now: u64, k: nat)
    requires
        k <= known.len(),
        distinct_ids(known),
    ensures
        no_dups(ids_of(new_markets(known, subscribed, now, k))),
        forall|id: Seq<char>| #[trigger]
            ids_of(new_markets(known, subscribed, now, k)).contains(id) <==> (!holds(subscribed, id)
                && exists|i: int|
                0 <= i < k && (#[trigger] known[i]).market.id@ == id && wanted(known, i, now)),
    decreases k,
{
    if k > 0 {
        let rest = ids_of(new_markets(known, subscribed, now, (k - 1) as nat));
        let cur = ids_of(new_markets(known, subscribed, now, k));
        let last = known[k - 1].market.id@;
        let take = wanted(known, k - 1, now) && !holds(subscribed, last);
        lemma_new_markets(known, subscribed, now, (k - 1) as nat);
        assert(cur =~= if take {
            rest.push(last)
        } else {
            rest
        });
        assert forall|id: Seq<char>| #[trigger]
            cur.contains(id) <==> (!holds(subscribed, id) && exists|i: int|
                0 <= i < k && (#[trigger] known[i]).market.id@ == id && wanted(known, i, now)) by {
            if cur.contains(id) {
                let t = choose|t: int| 0 <= t < cur.len() && cur[t] == id;
                if t < rest.len() {
                    assert(rest[t] == id);
                    assert(rest.contains(id));
                    let i = choose|i: int|
                        0 <= i < k - 1 && (#[trigger] known[i]).market.id@ == id && wanted(
                            known,
                            i,
                            now,
                        );
                    assert(0 <= i < k && known[i].market.id@ == id && wanted(known, i, now));
                } else {
                    assert(id == last);
                    assert(known[k - 1].market.id@ == id && wanted(known, k - 1, now));
                }
            }
            if !holds(subscribed, id) && exists|i: int|
                0 <= i < k && (#[trigger] known[i]).market.id@ == id && wanted(known, i, now) {
                let i = choose|i: int|
                    0 <= i < k && (#[trigger] known[i]).market.id@ == id && wanted(known, i, now);
                if i < k - 1 {
                    assert(rest.contains(id));
                    let t = choose|t: int| 0 <= t < rest.len() && rest[t] == id;
                    assert(cur[t] == id);
                } else {
                    assert(cur[cur.len() - 1] == id);
                }
            }
        }
        assert forall|i: int, j: int| 0 <= i < j < cur.len() implies #[trigger] cur[i]
            != #[trigger] cur[j] by {
            if j == rest.len() {
                assert(cur[j] == last);
                assert(cur[i] == rest[i]);
                if rest[i] == last {
                    assert(rest.contains(last));
                    let q = choose|q: int|
                        0 <= q < k - 1 && (#[trigger] known[q]).market.id@ == last && wanted(
                            known,
                            q,
                            now,
                        );
                    assert(known[q].market.id@ != known[k - 1].market.id@);
                }
            } else {
                assert(cur[i] == rest[i] && cur[j] == rest[j]);
            }
        }
    }
}

/// After the subscriptions have been managed, the subscribed markets are
/// exactly the wanted ones, each once.
pub proof fn lemma_subscribed_is_wanted(known: Seq<KnownPinned>, subscribed: Seq<String>, now: u64)
    requires
        distinct_ids(known),
        distinct(subscribed),
    ensures
        ({
            let after = kept_ids(known, subscribed, now, subscribed.len()) + ids_of(
                new_markets(known, subscribed, now, known.len()),
            );
            &&& no_dups(after)
            &&& forall|id: Seq<char>| #[trigger] after.contains(id) <==> id_wanted(known, id, now)
        }),
{
    let kept = kept_ids(known, subscribed, now, subscribed.len());
    let added = ids_of(new_markets(known, subscribed, now, known.len()));
    let after = kept + added;
    lemma_kept_ids(known, subscribed, now, subscribed.len());
    lemma_new_markets(known, subscribed, now, known.len());
    assert forall|id: Seq<char>| #[trigger] after.contains(id) <==> id_wanted(known, id, now) by {
        if after.contains(id) {
            let t = choose|t: int| 0 <= t < after.len() && after[t] == id;
            if t < kept.len() {
                assert(kept[t] == id);
                assert(kept.contains(id));
            } else {
                assert(added[t - kept.len()] == id);
                assert(added.contains(id));
            }
        }
        if id_wanted(known, id, now) {
            if holds(subscribed, id) {
                assert(kept.contains(id));
                let t = choose|t: int| 0 <= t < kept.len() && kept[t] == id;
                assert(after[t] == id);
            } else {
                assert(added.contains(id));
                let t = choose|t: int| 0 <= t < added.len() && added[t] == id;
                assert(after[kept.len() + t] == id);
            }
        }
    }
    assert forall|i: int, j: int| 0 <= i < j < after.len() implies #[trigger] after[i]
        != #[trigger] after[j] by {
        if j < kept.len() {
            assert(after[i] == kept[i] && after[j] == kept[j]);
        } else if i >= kept.len() {
            assert(after[i] == added[i - kept.len()] && after[j] == added[j - kept.len()]);
        } else {
            assert(after[i] == kept[i]);
            assert(after[j] == added[j - kept.len()]);
            assert(kept.contains(kept[i]));
            assert(added.contains(added[j - kept.len()]));
        }
    }
}

/// The pinned-market watcher.
pub struct PinnedMarketWatcher {
    known: Vec<KnownPinned>,
    subscribed: Vec<String>,
    last_fetch_secs: u64,
}

impl PinnedMarketWatcher {
    /// The rolling markets known from the last fetch of the catalog.
    pub closed spec fn known(&self) -> Seq<KnownPinned> {
        self.known@
    }

    /// The ids of the markets that the watcher has subscribed.
    pub closed spec fn subscribed(&self) -> Seq<String> {
        self.subscribed@
    }

    /// Seconds since the epoch of the last fetch of the catalog.
    pub closed spec fn last_fetch_secs(&self) -> u64 {
        self.last_fetch_secs
    }

    /// No market is known twice and none is subscribed twice.
    pub open spec fn wf(&self) -> bool {
        distinct_ids(self.known()) && distinct(self.subscribed())
    }

    /// A watcher that knows no market and has subscribed none.
    pub fn new() -> (r: Self)
        ensures
            r.wf(),
            r.known().len() == 0,
            r.subscribed().len() == 0,
            r.last_fetch_secs() == 0,
    {
        PinnedMarketWatcher { known: Vec::new(), subscribed: Vec::new(), last_fetch_secs: 0 }
    }

    /// Whether the catalog is to be fetched again: the last fetch is at
    /// least the refetch interval ago.
    pub fn needs_fetch(&self, now: u64) -> (r: bool)
        ensures
            r == (now >= self.last_fetch_secs() && now - self.last_fetch_secs()
                >= CATALOG_REFETCH_SECS),
    {
        now.saturating_sub(self.last_fetch_secs) >= CATALOG_REFETCH_SECS
    }

    /// The ids of the subscribed markets.
    pub fn subscribed_ids(&self) -> (r: &Vec<String>)
        ensures
            r@ == self.subscribed(),
    {
        &self.subscribed
    }

    /// Number of known rolling markets.
    pub fn known_count(&self) -> (r: usize)
        ensures
            r == self.known().len(),
    {
        self.known.len()
    }

    /// Takes the rolling markets of a fresh fetch of the catalog, made at
    /// `now`, in place of those known so far, in the order of the listings.
    /// Where a market is listed more than once, only its first listing
    /// stands: a market is known once, so that a second listing of the
    /// current market can never take the place of the next one.
    pub fn set_known(&mut self, results: Vec<(Market, String, u64)>, now: u64)
        requires
            old(self).wf(),
        ensures
            final(self).wf(),
            final(self).subscribed() == old(self).subscribed(),
            final(self).last_fetch_secs() == now,
            entries(final(self).known()) == first_listings(listings(results@), results@.len()),
    {
        self.known = dedup_listings(&results);
        self.last_fetch_secs = now;
    }

    /// Brings the subscriptions in line with what is wanted at `now`: adds
    /// and pins in the store the wanted markets that are not subscribed
    /// yet, and returns the control messages to send, the subscription of
    /// those markets first, then the unsubscription of each subscribed
    /// market that is no longer wanted. A market to unsubscribe stays in
    /// the store until its unsubscription is handled.
    pub fn manage_subscriptions(&mut self, store: &mut MarketStore, now: u64) -> (msgs: Vec<ControlMsg>)
        requires
            old(self).wf(),
        ensures
            final(self).wf(),
            final(self).known() == old(self).known(),
            final(self).last_fetch_secs() == old(self).last_fetch_secs(),
            is_plan(
                msgs@,
                new_markets(old(self).known(), old(self).subscribed(), now, old(self).known().len()),
                dropped_ids(
                    old(self).known(),
                    old(self).subscribed(),
                    now,
                    old(self).subscribed().len(),
                ),
            ),
            final(store)@ == with_pinned_markets(
                old(store)@,
                new_markets(old(self).known(), old(self).subscribed(), now, old(self).known().len()),
            ),
            old(store)@.wf() ==> final(store)@.wf(),
            views(final(self).subscribed()) == kept_ids(
                old(self).known(),
                old(self).subscribed(),
                now,
                old(self).subscribed().len(),
            ) + ids_of(
                new_markets(old(self).known(), old(self).subscribed(), now, old(self).known().len()),
            ),
            forall|id: Seq<char>|
                holds(final(self).subscribed(), id) <==> id_wanted(old(self).known(), id, now),
    {
        let to_add = pick_new(&self.known, &self.subscribed, now);
        let (kept, to_drop) = split_subscribed(&self.known, &self.subscribed, now);
        let mut subscribed = kept;
        add_pinned(store, &to_add, &mut subscribed);
        proof {
            lemma_subscribed_is_wanted(self.known@, self.subscribed@, now);
            let after = views(subscribed@);
            assert forall|id: Seq<char>| holds(subscribed@, id) <==> id_wanted(
                self.known@,
                id,
                now,
            ) by {
                if holds(subscribed@, id) {
                    let i = choose|i: int| 0 <= i < subscribed@.len() && (#[trigger] subscribed@[i])@ == id;
                    assert(after[i] == id);
                    assert(after.contains(id));
                }
                if id_wanted(self.known@, id, now) {
                    assert(after.contains(id));
                    let t = choose|t: int| 0 <= t < after.len() && after[t] == id;
                    assert(subscribed@[t]@ == id);
                }
            }
            assert forall|i: int, j: int| 0 <= i < j < subscribed@.len() implies (
            #[trigger] subscribed@[i])@ != (#[trigger] subscribed@[j])@ by {
                assert(after[i] != after[j]);
            }
        }
        self.subscribed = subscribed;
        plan_messages(to_add, to_drop)
    }
}

/// A rolling market as plain values: the market, its prefix, its end.
pub open spec fn entry(k: KnownPinned) -> (MarketView, Seq<char>, u64) {
    (k.market@, k.prefix@, k.end_ts)
}

/// The known markets as plain values.
pub open spec fn entries(known: Seq<KnownPinned>) -> Seq<(MarketView, Seq<char>, u64)> {
    known.map_values(|k: KnownPinned| entry(k))
}

/// The listings of a fetch as plain values.
pub open spec fn listings(results: Seq<(Market, String, u64)>) -> Seq<(MarketView, Seq<char>, u64)> {
    results.map_values(|r: (Market, String, u64)| (r.0@, r.1@, r.2))
}

/// Whether one of the first `k` listings is of the market `id`.
pub open spec fn listed(results: Seq<(MarketView, Seq<char>, u64)>, id: Seq<char>, k: int) -> bool {
    exists|j: int| 0 <= j < k && (#[trigger] results[j]).0.id == id
}

/// The first listing of each market among the first `k` listings, in
/// order.
pub open spec fn first_listings(results: Seq<(MarketView, Seq<char>, u64)>, k: nat) -> Seq<
    (MarketView, Seq<char>, u64),
>
    decreases k,
{
    if k == 0 {
        Seq::empty()
    } else {
        let rest = first_listings(results, (k - 1) as nat);
        if listed(results, results[k - 1].0.id, k - 1) {
            rest
        } else {
            rest.push(results[k - 1])
        }
    }
}

/// Keeps the first listing of each market.
fn dedup_listings(results: &Vec<(Market, String, u64)>) -> (r: Vec<KnownPinned>)
    ensures
        entries(r@) == first_listings(listings(results@), results@.len()),
        distinct_ids(r@),
{
    let ghost ls = listings(results@);
    let mut out: Vec<KnownPinned> = Vec::new();
    let mut i: usize = 0;
    assert(entries(out@) =~= Seq::empty());
    while i < results.len()
        invariant
            i <= results.len(),
            ls == listings(results@),
            entries(out@) == first_listings(ls, i as nat),
            distinct_ids(out@),
            forall|id: Seq<char>|
                (exists|t: int| 0 <= t < out@.len() && (#[trigger] out@[t]).market.id@ == id)
                    <==> #[trigger] listed(ls, id, i as int),
        decreases results.len() - i,
    {
        let ghost id = results@[i as int].0.id@;
        assert(ls[i as int].0.id == id);
        let mut seen = false;
        let mut t: usize = 0;
        while t < out.len() && !seen
            invariant
                t <= out.len(),
                i < results.len(),
                id == results@[i as int].0.id@,
                seen ==> exists|q: int| 0 <= q < out@.len() && (#[trigger] out@[q]).market.id@ == id,
                !seen ==> forall|q: int| 0 <= q < t ==> (#[trigger] out@[q]).market.id@ != id,
            decreases out.len() - t + if seen { 0int } else { 1int },
        {
            if str_eq(out[t].market.id.as_str(), results[i].0.id.as_str()) {
                seen = true;
            } else {
                t += 1;
            }
        }
        assert(seen == listed(ls, id, i as int));
        let ghost prev = out@;
        if !seen {
            out.push(
                KnownPinned {
                    market: results[i].0.clone(),
                    prefix: results[i].1.clone(),
                    end_ts: results[i].2,
                },
            );
            proof {
                assert(entries(out@) =~= entries(prev).push(ls[i as int]));
            }
        }
        proof {
            let next = i as int + 1;
            assert forall|x: Seq<char>|
                (exists|q: int| 0 <= q < out@.len() && (#[trigger] out@[q]).market.id@ == x)
                    <==> #[trigger] listed(ls, x, next) by {
                if exists|q: int| 0 <= q < out@.len() && (#[trigger] out@[q]).market.id@ == x {
                    let q = choose|q: int| 0 <= q < out@.len() && (#[trigger] out@[q]).market.id@ == x;
                    if q < prev.len() {
                        assert(prev[q].market.id@ == x);
                        assert(listed(ls, x, i as int));
                        let j = choose|j: int| 0 <= j < i && (#[trigger] ls[j]).0.id == x;
                        assert(0 <= j < i + 1 && ls[j].0.id == x);
                    } else {
                        assert(ls[i as int].0.id == x);
                    }
                }
                if listed(ls, x, next) {
                    let j = choose|j: int| 0 <= j < next && (#[trigger] ls[j]).0.id == x;
                    if j < i {
                        assert(listed(ls, x, i as int));
                        let q = choose|q: int|
                            0 <= q < prev.len() && (#[trigger] prev[q]).market.id@ == x;
                        assert(out@[q].market.id@ == x);
                    } else {
                        assert(x == id);
                        if seen {
                            let q = choose|q: int|
                                0 <= q < prev.len() && (#[trigger] prev[q]).market.id@ == id;
                            assert(out@[q].market.id@ == x);
                        } else {
                            assert(out@[out@.len() - 1].market.id@ == x);
                        }
                    }
                }
            }
            assert forall|a: int, b: int| 0 <= a < b < out@.len() implies (#[trigger] out@[a]).market.id@
                != (#[trigger] out@[b]).market.id@ by {
                if b < prev.len() {
                    assert(out@[a] == prev[a] && out@[b] == prev[b]);
                } else {
                    assert(out@[a] == prev[a]);
                    assert(out@[b].market.id@ == id);
                }
            }
        }
        i += 1;
    }
    out
}

/// Whether `p` is how `s` starts.
pub open spec fn starts_with(s: Seq<char>, p: Seq<char>) -> bool {
    p.len() <= s.len() && s.take(p.len() as int) == p
}

/// Whether a list of characters starts with another.
pub fn chars_start_with(s: &Vec<char>, p: &Vec<char>) -> (r: bool)
    ensures
        r == starts_with(s@, p@),
{
    if p.len() > s.len() {
        return false;
    }
    let mut i: usize = 0;
    while i < p.len()
        invariant
            i <= p.len(),
            p.len() <= s.len(),
            forall|j: int| 0 <= j < i ==> s@[j] == p@[j],
        decreases p.len() - i,
    {
        if s[i] != p[i] {
            proof {
                assert(s@.take(p.len() as int)[i as int] == s@[i as int]);
            }
            return false;
        }
        i += 1;
    }
    proof {
        assert(s@.take(p.len() as int) =~= p@);
    }
    true
}

/// Whether `k` is the first of the prefixes that the slug starts with.
pub open spec fn is_first_prefix(slug: Seq<char>, prefixes: Seq<String>, k: int) -> bool {
    &&& 0 <= k < prefixes.len()
    &&& starts_with(slug, prefixes[k]@)
    &&& forall|j: int| 0 <= j < k ==> !starts_with(slug, (#[trigger] prefixes[j])@)
}

/// Finds the first of the prefixes that a slug starts with.
pub fn match_prefix(slug: &str, prefixes: &Vec<String>) -> (r: Option<usize>)
    ensures
        match r {
            Some(k) => is_first_prefix(slug@, prefixes@, k as int),
            None => forall|j: int| 0 <= j < prefixes@.len() ==> !starts_with(
                slug@,
                (#[trigger] prefixes@[j])@,
            ),
        },
{
    let s = to_chars(slug);
    let mut k: usize = 0;
    while k < prefixes.len()
        invariant
            k <= prefixes.len(),
            s@ == slug@,
            forall|j: int| 0 <= j < k ==> !starts_with(slug@, (#[trigger] prefixes@[j])@),
        decreases prefixes.len() - k,
    {
        let p = to_chars(prefixes[k].as_str());
        if chars_start_with(&s, &p) {
            return Some(k);
        }
        k += 1;
    }
    None
}

/// Reads a listing of the catalog as a rolling market: the market without
/// any filter, the first of the prefixes that its slug starts with, and the
/// end that its slug gives. `None` where the slug starts with none of the
/// prefixes or the listing is no market.
pub fn pinned_candidate(g: &GammaMarket, slug: &str, prefixes: &Vec<String>) -> (r: Option<
    (Market, String, u64),
>)
    ensures
        match r {
            Some(c) => unfiltered_market(g@) == Some(c.0@) && c.2 == slug_end_ts(slug@)
                && exists|k: int| is_first_prefix(slug@, prefixes@, k) && c.1@ == prefixes@[k]@,
            None => unfiltered_market(g@) is None || forall|j: int|
                0 <= j < prefixes@.len() ==> !starts_with(slug@, (#[trigger] prefixes@[j])@),
        },
{
    let k = match match_prefix(slug, prefixes) {
        Some(k) => k,
        None => {
            return None;
        },
    };
    let end_ts = parse_slug_end_ts(slug);
    match parse_gamma_market_unfiltered(g) {
        Some(market) => Some((market, prefixes[k].clone(), end_ts)),
        None => None,
    }
}

} // verus!
