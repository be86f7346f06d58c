//! The order book of one token: two sides of price levels, keyed by integer
//! price keys.

use vstd::prelude::*;
use std::collections::BTreeMap;

verus! {

/// The two sides of a book as maps from price key to size.
pub struct BookView {
    pub asks: Map<u32, u64>,
    pub bids: Map<u32, u64>,
}

impl BookView {
    /// The book without any level.
    pub open spec fn empty() -> BookView {
        BookView { asks: Map::empty(), bids: Map::empty() }
    }

    /// No stored level has size zero.
    pub open spec fn wf(self) -> bool {
        &&& forall|k: u32| #[trigger] self.asks.contains_key(k) ==> self.asks[k] > 0
        &&& forall|k: u32| #[trigger] self.bids.contains_key(k) ==> self.bids[k] > 0
    }

    /// The best ask as a price key: the least key of the ask side, or 0
    /// where that side is empty.
    pub open spec fn best_ask_or_zero(self) -> u32 {
        match least_key(self.asks) {
            Some(k) => k,
            None => 0,
        }
    }

    /// The best bid as a price key: the greatest key of the bid side, or 0
    /// where that side is empty.
    pub open spec fn best_bid_or_zero(self) -> u32 {
        match greatest_key(self.bids) {
            Some(k) => k,
            None => 0,
        }
    }
}

/// Whether `k` is a key of `side` and no key of `side` is below it.
pub open spec fn is_least_key(side: Map<u32, u64>, k: u32) -> bool {
    &&& side.contains_key(k)
    &&& forall|j: u32| side.contains_key(j) ==> k <= j
}

/// Whether `k` is a key of `side` and no key of `side` is above it.
pub open spec fn is_greatest_key(side: Map<u32, u64>, k: u32) -> bool {
    &&& side.contains_key(k)
    &&& forall|j: u32| side.contains_key(j) ==> j <= k
}

/// The least key of a side, if it has any.
pub open spec fn least_key(side: Map<u32, u64>) -> Option<u32> {
    if exists|k: u32| is_least_key(side, k) {
        Some(choose|k: u32| is_least_key(side, k))
    } else {
        None
    }
}

/// The greatest key of a side, if it has any.
pub open spec fn greatest_key(side: Map<u32, u64>) -> Option<u32> {
    if exists|k: u32| is_greatest_key(side, k) {
        Some(choose|k: u32| is_greatest_key(side, k))
    } else {
        None
    }
}

/// A side has at most one least key, so `least_key` names it.
pub proof fn lemma_least_key_unique(side: Map<u32, u64>, k: u32)
    requires
        is_least_key(side, k),
    ensures
        least_key(side) == Some(k),
{
    let c = choose|c: u32| is_least_key(side, c);
    assert(is_least_key(side, c));
    assert(c <= k && k <= c);
}

/// A side has at most one greatest key, so `greatest_key` names it.
pub proof fn lemma_greatest_key_unique(side: Map<u32, u64>, k: u32)
    requires
        is_greatest_key(side, k),
    ensures
        greatest_key(side) == Some(k),
{
    let c = choose|c: u32| is_greatest_key(side, c);
    assert(is_greatest_key(side, c));
    assert(c <= k && k <= c);
}

/// The side that a snapshot leaves behind: the levels applied in order onto
/// an empty side, those of size zero skipped. Where a price occurs twice,
/// its last positive size stands.
pub open spec fn levels_map(levels: Seq<(u32, u64)>) -> Map<u32, u64>
    decreases levels.len(),
{
    if levels.len() == 0 {
        Map::empty()
    } else {
        let rest = levels_map(levels.drop_last());
        let last = levels.last();
        if last.1 > 0 {
            rest.insert(last.0, last.1)
        } else {
            rest
        }
    }
}

/// A side after one level change: size zero erases the level, any other
/// size sets it.
pub open spec fn side_after_change(side: Map<u32, u64>, key: u32, size: u64) -> Map<u32, u64> {
    if size == 0 {
        side.remove(key)
    } else {
        side.insert(key, size)
    }
}

/// A book after one level change on the given side.
pub open spec fn book_after_change(book: BookView, key: u32, is_ask: bool, size: u64) -> BookView {
    if is_ask {
        BookView { asks: side_after_change(book.asks, key, size), bids: book.bids }
    } else {
        BookView { asks: book.asks, bids: side_after_change(book.bids, key, size) }
    }
}

/// A book after a sequence of `(price key, is ask, size)` changes, applied
/// in order.
pub open spec fn book_after_changes(book: BookView, changes: Seq<(u32, bool, u64)>) -> BookView
    decreases changes.len(),
{
    if changes.len() == 0 {
        book
    } else {
        let c = changes.last();
        book_after_change(book_after_changes(book, changes.drop_last()), c.0, c.1, c.2)
    }
}

/// Every level that a snapshot leaves behind has a positive size.
pub proof fn lemma_levels_map_positive(levels: Seq<(u32, u64)>)
    ensures
        forall|k: u32| #[trigger] levels_map(levels).contains_key(k) ==> levels_map(levels)[k] > 0,
    decreases levels.len(),
{
    if levels.len() > 0 {
        let rest = levels_map(levels.drop_last());
        lemma_levels_map_positive(levels.drop_last());
        assert forall|k: u32| #[trigger] levels_map(levels).contains_key(k) implies levels_map(
            levels,
        )[k] > 0 by {
            if k != levels.last().0 || levels.last().1 == 0 {
                assert(rest.contains_key(k));
            }
        }
    }
}

/// A level is in the side that a snapshot leaves behind exactly if the
/// snapshot lists its price with a positive size.
pub proof fn lemma_levels_map_keys(levels: Seq<(u32, u64)>, k: u32)
    ensures
        levels_map(levels).contains_key(k) <==> exists|i: int|
            0 <= i < levels.len() && (#[trigger] levels[i]).0 == k && levels[i].1 > 0,
    decreases levels.len(),
{
    if levels.len() > 0 {
        let init = levels.drop_last();
        lemma_levels_map_keys(init, k);
        if levels_map(levels).contains_key(k) {
            if levels.last().0 == k && levels.last().1 > 0 {
                assert(levels[levels.len() - 1].0 == k);
            } else {
                let i = choose|i: int| 0 <= i < init.len() && (#[trigger] init[i]).0 == k && init[i].1 > 0;
                assert(levels[i] == init[i]);
            }
        }
        if exists|i: int| 0 <= i < levels.len() && (#[trigger] levels[i]).0 == k && levels[i].1 > 0 {
            let i = choose|i: int| 0 <= i < levels.len() && (#[trigger] levels[i]).0 == k && levels[i].1 > 0;
            if i < init.len() {
                assert(init[i] == levels[i]);
            }
        }
    }
}

/// A level change keeps a side free of zero sizes.
pub proof fn lemma_change_keeps_wf(book: BookView, key: u32, is_ask: bool, size: u64)
    requires
        book.wf(),
    ensures
        book_after_change(book, key, is_ask, size).wf(),
{
}

/// A sequence of level changes keeps a book free of zero sizes.
pub proof fn lemma_changes_keep_wf(book: BookView, changes: Seq<(u32, bool, u64)>)
    requires
        book.wf(),
    ensures
        book_after_changes(book, changes).wf(),
    decreases changes.len(),
{
    if changes.len() > 0 {
        lemma_changes_keep_wf(book, changes.drop_last());
        let c = changes.last();
        lemma_change_keeps_wf(book_after_changes(book, changes.drop_last()), c.0, c.1, c.2);
    }
}

/// Erasing the best ask of a book moves the best ask to the least of the
/// remaining keys.
pub proof fn lemma_erase_best_ask(book: BookView, best: u32, next: u32)
    requires
        is_least_key(book.asks, best),
        book.asks.contains_key(next),
        next != best,
        forall|j: u32| book.asks.contains_key(j) && j != best ==> next <= j,
    ensures
        book_after_change(book, best, true, 0).best_ask_or_zero() == next,
{
    let after = book_after_change(book, best, true, 0);
    assert(is_least_key(after.asks, next));
    lemma_least_key_unique(after.asks, next);
}

/// `BTreeMap::first_key_value`, reduced to the key: the least key of the
/// map, or nothing where the map is empty.
#[verifier::external_body]
fn first_key(m: &BTreeMap<u32, u64>) -> (r: Option<u32>)
    ensures
        match r {
            Some(k) => is_least_key(m@, k),
            None => forall|j: u32| !m@.contains_key(j),
        },
{
    m.first_key_value().map(|kv| *kv.0)
}

/// `BTreeMap::last_key_value`, reduced to the key: the greatest key of the
/// map, or nothing where the map is empty.
#[verifier::external_body]
fn last_key(m: &BTreeMap<u32, u64>) -> (r: Option<u32>)
    ensures
        match r {
            Some(k) => is_greatest_key(m@, k),
            None => forall|j: u32| !m@.contains_key(j),
        },
{
    m.last_key_value().map(|kv| *kv.0)
}

/// The order book of one token. Asks and bids are each ordered by price
/// key; the best ask is the least ask key, the best bid the greatest bid
/// key. A level of size zero is never stored.
pub struct OrderBook {
    asks: BTreeMap<u32, u64>,
    bids: BTreeMap<u32, u64>,
}

impl View for OrderBook {
    type V = BookView;

    closed spec fn view(&self) -> BookView {
        BookView { asks: self.asks@, bids: self.bids@ }
    }
}

impl OrderBook {
    /// An empty book.
    pub fn new() -> (r: Self)
        ensures
            r@ == BookView::empty(),
            r@.wf(),
    {
        OrderBook { asks: BTreeMap::new(), bids: BTreeMap::new() }
    }

    /// Replaces both sides by the given `(price key, size)` levels. Levels
    /// of size zero are skipped.
    pub fn apply_snapshot(&mut self, asks: &[(u32, u64)], bids: &[(u32, u64)])
        ensures
            final(self)@.asks == levels_map(asks@),
            final(self)@.bids == levels_map(bids@),
            final(self)@.wf(),
    {
        self.asks.clear();
        let mut i: usize = 0;
        while i < asks.len()
            invariant
                i <= asks.len(),
                self.asks@ == levels_map(asks@.take(i as int)),
            decreases asks.len() - i,
        {
            let (price, size) = asks[i];
            proof {
                assert(asks@.take(i as int + 1).drop_last() == asks@.take(i as int));
            }
            if size > 0 {
                self.asks.insert(price, size);
            }
            i += 1;
        }
        self.bids.clear();
        let mut j: usize = 0;
        while j < bids.len()
            invariant
                j <= bids.len(),
                self.asks@ == levels_map(asks@.take(asks.len() as int)),
                self.bids@ == levels_map(bids@.take(j as int)),
            decreases bids.len() - j,
        {
            let (price, size) = bids[j];
            proof {
                assert(bids@.take(j as int + 1).drop_last() == bids@.take(j as int));
            }
            if size > 0 {
                self.bids.insert(price, size);
            }
            j += 1;
        }
        proof {
            assert(asks@.take(asks.len() as int) == asks@);
            assert(bids@.take(bids.len() as int) == bids@);
            lemma_levels_map_positive(asks@);
            lemma_levels_map_positive(bids@);
        }
    }

    /// Applies one level change: on the ask side if `is_ask`, else on the
    /// bid side. Size zero erases the level, any other size sets it.
    pub fn apply_change(&mut self, price_key: u32, is_ask: bool, size: u64)
        ensures
            final(self)@ == book_after_change(old(self)@, price_key, is_ask, size),
            old(self)@.wf() ==> final(self)@.wf(),
    {
        if is_ask {
            if size == 0 {
                self.asks.remove(&price_key);
            } else {
                self.asks.insert(price_key, size);
            }
        } else {
            if size == 0 {
                self.bids.remove(&price_key);
            } else {
                self.bids.insert(price_key, size);
            }
        }
    }

    /// The least ask key, or `None` where there is no ask.
    pub fn best_ask(&self) -> (r: Option<u32>)
        ensures
            r == least_key(self@.asks),
            r is None <==> forall|k: u32| !self@.asks.contains_key(k),
    {
        let r = first_key(&self.asks);
        proof {
            match r {
                Some(k) => {
                    lemma_least_key_unique(self.asks@, k);
                },
                None => {},
            }
        }
        r
    }

    /// The greatest bid key, or `None` where there is no bid.
    pub fn best_bid(&self) -> (r: Option<u32>)
        ensures
            r == greatest_key(self@.bids),
            r is None <==> forall|k: u32| !self@.bids.contains_key(k),
    {
        let r = last_key(&self.bids);
        proof {
            match r {
                Some(k) => {
                    lemma_greatest_key_unique(self.bids@, k);
                },
                None => {},
            }
        }
        r
    }

    /// Both bests at once, each 0 where its side is empty.
    pub fn best_prices(&self) -> (r: (u32, u32))
        ensures
            r.0 == self@.best_ask_or_zero(),
            r.1 == self@.best_bid_or_zero(),
    {
        let ask: u32 = match self.best_ask() {
            Some(k) => k,
            None => 0,
        };
        let bid: u32 = match self.best_bid() {
            Some(k) => k,
            None => 0,
        };
        (ask, bid)
    }

    /// The size stored at an ask price, if any.
    pub fn ask_size(&self, price_key: u32) -> (r: Option<u64>)
        ensures
            r == (if self@.asks.contains_key(price_key) {
                Some(self@.asks[price_key])
            } else {
                None
            }),
    {
        match self.asks.get(&price_key) {
            Some(s) => Some(*s),
            None => None,
        }
    }

    /// The size stored at a bid price, if any.
    pub fn bid_size(&self, price_key: u32) -> (r: Option<u64>)
        ensures
            r == (if self@.bids.contains_key(price_key) {
                Some(self@.bids[price_key])
            } else {
                None
            }),
    {
        match self.bids.get(&price_key) {
            Some(s) => Some(*s),
            None => None,
        }
    }
}

} // verus!
