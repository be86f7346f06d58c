//! The universe refresh: which markets leave and which join when a fresh
//! list of qualifying markets comes in.
//!
//! A pinned market never leaves through a refresh. A market that leaves
//! stays in the store until its unsubscription is handled.

use vstd::prelude::*;
use vstd::string::*;
use crate::shared::lists_keys;
use crate::store::{MarketStore, StoreView};
use crate::text::{str_eq, views};
use crate::types::{market_views, ControlMsg, Market, MarketView};
use crate::watcher::{is_subscribe_of, is_unsubscribe_of, no_dups};

verus! {

/// Whether the fresh list holds a market with the given id.
pub open spec fn fresh_has(fresh: Seq<MarketView>, id: Seq<char>) -> bool {
    exists|j: int| 0 <= j < fresh.len() && (#[trigger] fresh[j]).id == id
}

/// Whether a refresh makes a market leave: the store tracks it, the fresh
/// list does not hold it, and it is not pinned.
pub open spec fn leaves(store: StoreView, fresh: Seq<MarketView>, id: Seq<char>) -> bool {
    store.markets.contains_key(id) && !fresh_has(fresh, id) && !store.pinned.contains(id)
}

/// The markets that join among the first `k` of the fresh list: those that
/// the store does not track, in the order of the list.
pub open spec fn joining(store: StoreView, fresh: Seq<MarketView>, k: nat) -> Seq<MarketView>
    decreases k,
{
    if k == 0 {
        Seq::empty()
    } else {
        let rest = joining(store, fresh, (k - 1) as nat);
        if !store.markets.contains_key(fresh[k - 1].id) {
            rest.push(fresh[k - 1])
        } else {
            rest
        }
    }
}

/// Whether `msgs` is the unsubscription of each of the ids `leaving`, in
/// order, followed by the subscription of the markets `add`, if there are
/// any.
pub open spec fn is_refresh_plan(msgs: Seq<ControlMsg>, leaving: Seq<Seq<char>>, add: Seq<MarketView>) -> bool {
    &&& msgs.len() == leaving.len() + (if add.len() > 0 {
        1int
    } else {
        0int
    })
    &&& forall|k: int| 0 <= k < leaving.len() ==> is_unsubscribe_of(#[trigger] msgs[k], leaving[k])
    &&& add.len() > 0 ==> is_subscribe_of(msgs[leaving.len() as int], add)
}

/// What a refresh does.
#[derive(Debug)]
pub struct RefreshPlan {
    /// The ids of the markets that leave.
    pub leaving: Vec<String>,
    /// The markets that join.
    pub joining: Vec<Market>,
    /// Number of markets that were held and stay.
    pub unchanged: usize,
}

impl RefreshPlan {
    /// Number of markets that join.
    pub fn added(&self) -> (r: usize)
        ensures
            r == self.joining@.len(),
    {
        self.joining.len()
    }

    /// Number of markets that leave.
    pub fn removed(&self) -> (r: usize)
        ensures
            r == self.leaving@.len(),
    {
        self.leaving.len()
    }

    /// The control messages of the plan: the unsubscription of each market
    /// that leaves, then the subscription of those that join, if any.
    pub fn messages(self) -> (msgs: Vec<ControlMsg>)
        ensures
            is_refresh_plan(msgs@, views(self.leaving@), market_views(self.joining@)),
    {
        let RefreshPlan { leaving: to_remove, joining: to_add, unchanged: _ } = self;
        let ghost leaving = views(to_remove@);
        let ghost add = market_views(to_add@);
        let mut msgs: Vec<ControlMsg> = Vec::new();
        let mut i: usize = 0;
        while i < to_remove.len()
            invariant
                i <= to_remove.len(),
                leaving == views(to_remove@),
                msgs@.len() == i,
                forall|k: int| 0 <= k < i ==> is_unsubscribe_of(#[trigger] msgs@[k], leaving[k]),
            decreases to_remove.len() - i,
        {
            let ghost prev = msgs@;
            msgs.push(ControlMsg::Unsubscribe(to_remove[i].clone()));
            proof {
                assert forall|k: int| 0 <= k < i + 1 implies is_unsubscribe_of(
                    #[trigger] msgs@[k],
                    leaving[k],
                ) by {
                    if k < i {
                        assert(msgs@[k] == prev[k]);
                    }
                }
            }
            i += 1;
        }
        if to_add.len() > 0 {
            let ghost prev = msgs@;
            msgs.push(ControlMsg::Subscribe(to_add));
            proof {
                assert forall|k: int| 0 <= k < leaving.len() implies is_unsubscribe_of(
                    #[trigger] msgs@[k],
                    leaving[k],
                ) by {
                    assert(msgs@[k] == prev[k]);
                }
            }
        }
        msgs
    }
}

fn list_has(fresh: &Vec<Market>, id: &str) -> (r: bool)
    ensures
        r == fresh_has(market_views(fresh@), id@),
{
    let mut j: usize = 0;
    while j < fresh.len()
        invariant
            j <= fresh.len(),
            forall|q: int| 0 <= q < j ==> (#[trigger] market_views(fresh@)[q]).id != id@,
        decreases fresh.len() - j,
    {
        assert(market_views(fresh@)[j as int].id == fresh@[j as int].id@);
        if str_eq(fresh[j].id.as_str(), id) {
            return true;
        }
        j += 1;
    }
    false
}

/// Picks the ids of the markets that leave.
fn pick_leaving(store: &MarketStore, fresh: &Vec<Market>) -> (r: Vec<String>)
    ensures
        no_dups(views(r@)),
        forall|id: Seq<char>| #[trigger]
            views(r@).contains(id) <==> leaves(store@, market_views(fresh@), id),
{
    let current = store.all_market_ids();
    let ghost fv = market_views(fresh@);
    let mut out: Vec<String> = Vec::new();
    let mut i: usize = 0;
    while i < current.len()
        invariant
            i <= current.len(),
            fv == market_views(fresh@),
            lists_keys(current@, store@.markets.dom()),
            forall|t: int|
                0 <= t < out@.len() ==> exists|q: int|
                    0 <= q < i && (#[trigger] current@[q])@ == (#[trigger] out@[t])@,
            no_dups(views(out@)),
            forall|id: Seq<char>| #[trigger]
                views(out@).contains(id) <==> (leaves(store@, fv, id) && exists|q: int|
                    0 <= q < i && (#[trigger] current@[q])@ == id),
        decreases current.len() - i,
    {
        let ghost id = current@[i as int]@;
        let ghost prev = views(out@);
        let ghost prev_out = out@;
        let go = !list_has(fresh, current[i].as_str()) && !store.is_pinned(current[i].as_str());
        proof {
            assert(store@.markets.dom().contains(id));
            assert(go == leaves(store@, fv, id));
        }
        if go {
            out.push(current[i].clone());
            proof {
                assert(views(out@) =~= prev.push(id));
                assert forall|a: int, b: int| 0 <= a < b < views(out@).len() implies #[trigger] views(
                    out@,
                )[a] != #[trigger] views(out@)[b] by {
                    if b == prev.len() {
                        assert(views(out@)[a] == prev[a]);
                        if prev[a] == id {
                            let q = choose|q: int|
                                0 <= q < i && (#[trigger] current@[q])@ == (#[trigger] prev_out[a])@;
                            assert(current@[q]@ != current@[i as int]@);
                        }
                    } else {
                        assert(views(out@)[a] == prev[a] && views(out@)[b] == prev[b]);
                    }
                }
            }
        }
        proof {
            let next = i as int + 1;
            assert forall|t: int| 0 <= t < out@.len() implies exists|q: int|
                0 <= q < next && (#[trigger] current@[q])@ == (#[trigger] out@[t])@ by {
                if t < prev_out.len() {
                    let q = choose|q: int|
                        0 <= q < i && (#[trigger] current@[q])@ == (#[trigger] prev_out[t])@;
                    assert(0 <= q < next && current@[q]@ == out@[t]@);
                } else {
                    assert(current@[i as int]@ == out@[t]@);
                }
            }
            assert forall|x: Seq<char>| #[trigger]
                views(out@).contains(x) <==> (leaves(store@, fv, x) && exists|q: int|
                    0 <= q < next && (#[trigger] current@[q])@ == x) by {
                if views(out@).contains(x) {
                    let t = choose|t: int| 0 <= t < views(out@).len() && views(out@)[t] == x;
                    if t < prev.len() {
                        assert(prev[t] == x);
                        assert(prev.contains(x));
                        let q = choose|q: int| 0 <= q < i && (#[trigger] current@[q])@ == x;
                        assert(0 <= q < next && current@[q]@ == x);
                    } else {
                        assert(x == id);
                        assert(current@[i as int]@ == x);
                    }
                }
                if leaves(store@, fv, x) && exists|q: int|
                    0 <= q < next && (#[trigger] current@[q])@ == x {
                    let q = choose|q: int| 0 <= q < next && (#[trigger] current@[q])@ == x;
                    if q < i {
                        assert(prev.contains(x));
                        let t = choose|t: int| 0 <= t < prev.len() && prev[t] == x;
                        assert(views(out@)[t] == x);
                    } else {
                        assert(views(out@)[views(out@).len() - 1] == x);
                    }
                }
            }
        }
        i += 1;
    }
    proof {
        assert forall|id: Seq<char>| #[trigger]
            views(out@).contains(id) <==> leaves(store@, fv, id) by {
            if leaves(store@, fv, id) {
                assert(store@.markets.dom().contains(id));
                let q = choose|q: int| 0 <= q < current@.len() && (#[trigger] current@[q])@ == id;
                assert(0 <= q < i && current@[q]@ == id);
            }
        }
    }
    out
}

/// Picks the markets that join.
fn pick_joining(store: &MarketStore, fresh: &Vec<Market>) -> (r: Vec<Market>)
    ensures
        market_views(r@) == joining(store@, market_views(fresh@), fresh@.len()),
{
    let ghost fv = market_views(fresh@);
    let mut out: Vec<Market> = Vec::new();
    let mut i: usize = 0;
    assert(market_views(out@) =~= Seq::empty());
    while i < fresh.len()
        invariant
            i <= fresh.len(),
            fv == market_views(fresh@),
            market_views(out@) == joining(store@, fv, i as nat),
        decreases fresh.len() - i,
    {
        assert(fv[i as int] == fresh@[i as int]@);
        if !store.markets_contains(fresh[i].id.as_str()) {
            let ghost prev = market_views(out@);
            out.push(fresh[i].clone());
            proof {
                assert(market_views(out@) =~= prev.push(fresh@[i as int]@));
            }
        }
        i += 1;
    }
    out
}

/// Clones a list of markets.
fn clone_markets(v: &Vec<Market>) -> (r: Vec<Market>)
    ensures
        market_views(r@) == market_views(v@),
{
    let mut out: Vec<Market> = Vec::new();
    let mut i: usize = 0;
    while i < v.len()
        invariant
            i <= v.len(),
            out@.len() == i,
            forall|j: int| 0 <= j < i ==> (#[trigger] out@[j])@ == v@[j]@,
        decreases v.len() - i,
    {
        out.push(v[i].clone());
        i += 1;
    }
    proof {
        assert(market_views(out@) =~= market_views(v@));
    }
    out
}

/// Reconciles the markets held with a fresh list of qualifying ones.
///
/// A held market that the fresh list does not hold leaves, unless it is
/// pinned; it stays in the store until its unsubscription is handled. A
/// market of the fresh list that is not held joins, and is added to the
/// store.
pub fn refresh(store: &mut MarketStore, fresh: &Vec<Market>) -> (plan: RefreshPlan)
    ensures
        final(store)@ == old(store)@.with_markets(
            joining(old(store)@, market_views(fresh@), fresh@.len()),
        ),
        old(store)@.wf() ==> final(store)@.wf(),
        market_views(plan.joining@) == joining(old(store)@, market_views(fresh@), fresh@.len()),
        no_dups(views(plan.leaving@)),
        forall|id: Seq<char>| #[trigger]
            views(plan.leaving@).contains(id) <==> leaves(old(store)@, market_views(fresh@), id),
        plan.unchanged == (if old(store)@.markets.dom().len() >= plan.leaving@.len() {
            old(store)@.markets.dom().len() - plan.leaving@.len()
        } else {
            0
        }),
{
    let held = store.market_count();
    let to_remove = pick_leaving(store, fresh);
    let to_add = pick_joining(store, fresh);
    let unchanged = held.saturating_sub(to_remove.len());
    if to_add.len() > 0 {
        store.add_markets(clone_markets(&to_add));
    }
    RefreshPlan { leaving: to_remove, joining: to_add, unchanged }
}

} // verus!
