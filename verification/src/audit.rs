//! Samples of hydrated markets, for the detector's readiness report and its
//! periodic price sample.

use vstd::prelude::*;
use vstd::string::*;
use crate::shared::lists_keys;
use crate::store::{MarketStore, StoreView};
use crate::text::str_eq;
use crate::types::{compute_spread, spread_of};

verus! {

/// Number of token ids that the periodic price sample looks at.
pub const PRICE_SAMPLE_SCAN: usize = 20;

/// The cached best prices of the two sides of one hydrated market.
#[derive(Debug, PartialEq, Eq)]
pub struct SpreadSample {
    pub market_id: String,
    pub yes_ask: u32,
    pub no_ask: u32,
    pub yes_bid: u32,
    pub no_bid: u32,
}

impl SpreadSample {
    /// The sample as the store gives it.
    pub open spec fn inputs(&self) -> (Seq<char>, u32, u32, u32, u32) {
        (self.market_id@, self.yes_ask, self.no_ask, self.yes_bid, self.no_bid)
    }

    /// The two asks together, in price keys.
    pub fn combined_ask(&self) -> (r: u64)
        ensures
            r == self.yes_ask + self.no_ask,
    {
        self.yes_ask as u64 + self.no_ask as u64
    }

    /// The two bids together, in price keys.
    pub fn combined_bid(&self) -> (r: u64)
        ensures
            r == self.yes_bid + self.no_bid,
    {
        self.yes_bid as u64 + self.no_bid as u64
    }

    /// Twice the sum of the two midpoints, in price keys: all four prices
    /// together.
    pub fn combined_mid_doubled(&self) -> (r: u64)
        ensures
            r == self.yes_ask + self.yes_bid + self.no_ask + self.no_bid,
    {
        self.yes_ask as u64 + self.yes_bid as u64 + self.no_ask as u64 + self.no_bid as u64
    }

    /// The spread of the two asks, in price keys.
    pub fn spread(&self) -> (r: i64)
        ensures
            r == spread_of(self.yes_ask, self.no_ask),
    {
        compute_spread(self.yes_ask, self.no_ask)
    }
}

/// Whether a sample is what the store gives for some token.
pub open spec fn is_sample_of(store: StoreView, s: SpreadSample) -> bool {
    exists|token: Seq<char>| #[trigger]
        store.links.contains_key(token) && store.spread_inputs(token) == Some(s.inputs())
}

/// The hydrated market that a token leads to, where it leads to one.
pub open spec fn hydrated_market_of(store: StoreView, token: Seq<char>) -> Seq<char> {
    match store.spread_inputs(token) {
        Some(inputs) => inputs.0,
        None => Seq::empty(),
    }
}

/// Whether a list of samples holds one of the given market.
pub open spec fn samples_hold(samples: Seq<SpreadSample>, id: Seq<char>) -> bool {
    exists|t: int| 0 <= t < samples.len() && (#[trigger] samples[t]).market_id@ == id
}

/// Whether no market is sampled twice.
pub open spec fn distinct_samples(samples: Seq<SpreadSample>) -> bool {
    forall|a: int, b: int|
        0 <= a < b < samples.len() ==> (#[trigger] samples[a]).market_id@ != (#[trigger] samples[b]).market_id@
}

fn holds_market(samples: &Vec<SpreadSample>, id: &str) -> (r: bool)
    ensures
        r == samples_hold(samples@, id@),
{
    let mut t: usize = 0;
    while t < samples.len()
        invariant
            t <= samples.len(),
            forall|q: int| 0 <= q < t ==> (#[trigger] samples@[q]).market_id@ != id@,
        decreases samples.len() - t,
    {
        if str_eq(samples[t].market_id.as_str(), id) {
            return true;
        }
        t += 1;
    }
    false
}

/// A sample as plain values.
pub open spec fn sample_inputs(samples: Seq<SpreadSample>) -> Seq<(Seq<char>, u32, u32, u32, u32)> {
    samples.map_values(|s: SpreadSample| s.inputs())
}

/// Whether one of the samples is of the given market.
pub open spec fn inputs_hold(samples: Seq<(Seq<char>, u32, u32, u32, u32)>, id: Seq<char>) -> bool {
    exists|t: int| 0 <= t < samples.len() && (#[trigger] samples[t]).0 == id
}

/// The samples taken along the first `k` token ids of a listing: each id
/// that leads to a hydrated market not sampled before adds that market's
/// prices, until there are `limit` samples.
pub open spec fn samples_along(store: StoreView, listing: Seq<String>, limit: nat, k: nat) -> Seq<
    (Seq<char>, u32, u32, u32, u32),
>
    decreases k,
{
    if k == 0 {
        Seq::empty()
    } else {
        let before = samples_along(store, listing, limit, (k - 1) as nat);
        match store.spread_inputs(listing[k - 1]@) {
            Some(inputs) => if before.len() < limit && !inputs_hold(before, inputs.0) {
                before.push(inputs)
            } else {
                before
            },
            None => before,
        }
    }
}

/// How many token ids of a listing are looked at: all of them, but no more
/// than `scan`.
pub open spec fn scanned(listing: Seq<String>, scan: nat) -> nat {
    if listing.len() < scan {
        listing.len()
    } else {
        scan
    }
}

/// Once the limit is reached, further token ids add nothing.
pub proof fn lemma_samples_full(store: StoreView, listing: Seq<String>, limit: nat, i: nat, k: nat)
    requires
        i <= k,
        samples_along(store, listing, limit, i).len() >= limit,
    ensures
        samples_along(store, listing, limit, k) == samples_along(store, listing, limit, i),
    decreases k,
{
    if i < k {
        lemma_samples_full(store, listing, limit, i, (k - 1) as nat);
    }
}

/// Of the samples taken along a listing: there are at most `limit`; no
/// market is sampled twice; each is what the store gives for one of the
/// ids looked at; and while fewer than `limit` were taken, every hydrated
/// market that one of the ids looked at leads to is among them.
pub proof fn lemma_samples_along(store: StoreView, listing: Seq<String>, limit: nat, k: nat)
    requires
        k <= listing.len(),
    ensures
        samples_along(store, listing, limit, k).len() <= limit,
        forall|a: int, b: int|
            0 <= a < b < samples_along(store, listing, limit, k).len() ==> (#[trigger] samples_along(
                store,
                listing,
                limit,
                k,
            )[a]).0 != (#[trigger] samples_along(store, listing, limit, k)[b]).0,
        forall|t: int|
            0 <= t < samples_along(store, listing, limit, k).len() ==> exists|q: int|
                0 <= q < k && store.spread_inputs((#[trigger] listing[q])@) == Some(
                    #[trigger] samples_along(store, listing, limit, k)[t],
                ),
        samples_along(store, listing, limit, k).len() < limit ==> forall|q: int|
            0 <= q < k && store.spread_inputs((#[trigger] listing[q])@) is Some ==> inputs_hold(
                samples_along(store, listing, limit, k),
                hydrated_market_of(store, listing[q]@),
            ),
    decreases k,
{
    if k > 0 {
        let before = samples_along(store, listing, limit, (k - 1) as nat);
        let now = samples_along(store, listing, limit, k);
        lemma_samples_along(store, listing, limit, (k - 1) as nat);
        assert forall|a: int, b: int| 0 <= a < b < now.len() implies (#[trigger] now[a]).0 != (
        #[trigger] now[b]).0 by {
            if b < before.len() {
                assert(now[a] == before[a] && now[b] == before[b]);
            } else {
                assert(now[a] == before[a]);
            }
        }
        assert forall|t: int| 0 <= t < now.len() implies exists|q: int|
            0 <= q < k && store.spread_inputs((#[trigger] listing[q])@) == Some(
                #[trigger] now[t],
            ) by {
            if t < before.len() {
                assert(now[t] == before[t]);
                let q = choose|q: int|
                    0 <= q < k - 1 && store.spread_inputs((#[trigger] listing[q])@) == Some(
                        #[trigger] before[t],
                    );
                assert(0 <= q < k && store.spread_inputs(listing[q]@) == Some(now[t]));
            } else {
                assert(store.spread_inputs(listing[k - 1]@) == Some(now[t]));
            }
        }
        if now.len() < limit {
            assert forall|q: int|
                0 <= q < k && store.spread_inputs((#[trigger] listing[q])@) is Some implies inputs_hold(
                now,
                hydrated_market_of(store, listing[q]@),
            ) by {
                let want = hydrated_market_of(store, listing[q]@);
                if q < k - 1 {
                    assert(inputs_hold(before, want));
                    let t = choose|t: int| 0 <= t < before.len() && (#[trigger] before[t]).0 == want;
                    assert(now[t] == before[t]);
                } else if inputs_hold(before, want) {
                    let t = choose|t: int| 0 <= t < before.len() && (#[trigger] before[t]).0 == want;
                    assert(now[t] == before[t]);
                } else {
                    assert(now[now.len() - 1].0 == want);
                }
            }
        }
    }
}

/// Samples hydrated markets along a listing of token ids: looks at the
/// first `scan` ids in order and takes the prices of each hydrated market
/// that an id leads to and that is not sampled yet, until there are
/// `limit` samples.
pub fn sample_listed(store: &MarketStore, ids: &Vec<String>, limit: usize, scan: usize) -> (r: Vec<
    SpreadSample,
>)
    ensures
        sample_inputs(r@) == samples_along(
            store@,
            ids@,
            limit as nat,
            scanned(ids@, scan as nat),
        ),
{
    let mut out: Vec<SpreadSample> = Vec::new();
    let mut i: usize = 0;
    assert(sample_inputs(out@) =~= Seq::empty());
    while i < ids.len() && i < scan && out.len() < limit
        invariant
            i <= ids.len(),
            i <= scan,
            sample_inputs(out@) == samples_along(store@, ids@, limit as nat, i as nat),
        decreases ids.len() - i,
    {
        let ghost prev = sample_inputs(out@);
        match store.get_spread_inputs(ids[i].as_str()) {
            Some((market_id, yes_ask, no_ask, yes_bid, no_bid)) => {
                let held = holds_market(&out, market_id.as_str());
                proof {
                    if samples_hold(out@, market_id@) {
                        let t = choose|t: int|
                            0 <= t < out@.len() && (#[trigger] out@[t]).market_id@ == market_id@;
                        assert(prev[t].0 == market_id@);
                    }
                    if inputs_hold(prev, market_id@) {
                        let t = choose|t: int|
                            0 <= t < prev.len() && (#[trigger] prev[t]).0 == market_id@;
                        assert(out@[t].market_id@ == market_id@);
                    }
                    assert(held == inputs_hold(prev, market_id@));
                }
                if !held {
                    let sample = SpreadSample { market_id, yes_ask, no_ask, yes_bid, no_bid };
                    out.push(sample);
                    proof {
                        assert(sample_inputs(out@) =~= prev.push(sample.inputs()));
                    }
                }
            },
            None => {},
        }
        i += 1;
    }
    proof {
        let k = scanned(ids@, scan as nat);
        if (i as nat) < k {
            lemma_samples_full(store@, ids@, limit as nat, i as nat, k);
        }
    }
    out
}

/// Samples hydrated markets, at most `limit` of them and each at most
/// once, along the first `scan` token ids in the order in which the store
/// lists them. While fewer than `limit` come back, every hydrated market
/// that one of those ids leads to is among them.
pub fn sample_hydrated(store: &MarketStore, limit: usize, scan: usize) -> (r: Vec<SpreadSample>)
    ensures
        exists|listing: Seq<String>| #[trigger]
            lists_keys(listing, store@.links.dom()) && sample_inputs(r@) == samples_along(
                store@,
                listing,
                limit as nat,
                scanned(listing, scan as nat),
            ),
        r@.len() <= limit,
        distinct_samples(r@),
        forall|t: int| 0 <= t < r@.len() ==> is_sample_of(store@, #[trigger] r@[t]),
        r@.len() < limit && store@.links.dom().finite() && store@.links.dom().len() <= scan
            ==> forall|token: Seq<char>| #[trigger]
            store@.links.contains_key(token) && store@.spread_inputs(token) is Some
                ==> samples_hold(r@, hydrated_market_of(store@, token)),
{
    let ids = store.all_asset_ids();
    let out = sample_listed(store, &ids, limit, scan);
    proof {
        let k = scanned(ids@, scan as nat);
        let along = samples_along(store@, ids@, limit as nat, k);
        lemma_samples_along(store@, ids@, limit as nat, k);
        assert(out@.len() == along.len());
        assert forall|a: int, b: int| 0 <= a < b < out@.len() implies (#[trigger] out@[a]).market_id@
            != (#[trigger] out@[b]).market_id@ by {
            assert(along[a].0 == out@[a].market_id@);
            assert(along[b].0 == out@[b].market_id@);
        }
        assert forall|t: int| 0 <= t < out@.len() implies is_sample_of(store@, #[trigger] out@[t]) by {
            assert(along[t] == out@[t].inputs());
            let q = choose|q: int|
                0 <= q < k && store@.spread_inputs((#[trigger] ids@[q])@) == Some(#[trigger] along[t]);
            assert(store@.links.dom().contains(ids@[q]@));
            assert(store@.links.contains_key(ids@[q]@) && store@.spread_inputs(ids@[q]@) == Some(
                out@[t].inputs(),
            ));
        }
        if out@.len() < limit && store@.links.dom().finite() && store@.links.dom().len() <= scan {
            lemma_listed_count(ids@, store@.links.dom());
            assert(k == ids@.len());
            assert forall|token: Seq<char>| #[trigger]
                store@.links.contains_key(token) && store@.spread_inputs(
                    token,
                ) is Some implies samples_hold(out@, hydrated_market_of(store@, token)) by {
                let q = choose|q: int| 0 <= q < ids@.len() && (#[trigger] ids@[q])@ == token;
                assert(store@.spread_inputs(ids@[q]@) is Some);
                let want = hydrated_market_of(store@, ids@[q]@);
                assert(inputs_hold(along, want));
                let t = choose|t: int| 0 <= t < along.len() && (#[trigger] along[t]).0 == want;
                assert(out@[t].market_id@ == want);
            }
        }
    }
    out
}

/// A list that names each key of a finite set once is as long as the set
/// is large.
pub proof fn lemma_listed_count(keys: Seq<String>, dom: Set<Seq<char>>)
    requires
        lists_keys(keys, dom),
        dom.finite(),
    ensures
        keys.len() == dom.len(),
    decreases keys.len(),
{
    if keys.len() == 0 {
        assert(dom =~= Set::empty());
    } else {
        let last = keys.last()@;
        let rest = keys.drop_last();
        let smaller = dom.remove(last);
        assert(dom.contains(keys[keys.len() - 1]@));
        assert(lists_keys(rest, smaller)) by {
            assert forall|i: int| 0 <= i < rest.len() implies smaller.contains(
                (#[trigger] rest[i])@,
            ) by {
                assert(rest[i] == keys[i]);
                assert(dom.contains(keys[i]@));
                assert(keys[i]@ != keys[keys.len() - 1]@);
            }
            assert forall|k: Seq<char>| smaller.contains(k) implies exists|i: int|
                0 <= i < rest.len() && (#[trigger] rest[i])@ == k by {
                let i = choose|i: int| 0 <= i < keys.len() && (#[trigger] keys[i])@ == k;
                assert(i < keys.len() - 1);
                assert(rest[i] == keys[i]);
            }
            assert forall|i: int, j: int| 0 <= i < j < rest.len() implies (#[trigger] rest[i])@ != (
            #[trigger] rest[j])@ by {
                assert(rest[i] == keys[i] && rest[j] == keys[j]);
            }
        }
        lemma_listed_count(rest, smaller);
    }
}

} // verus!
