//! The book store: per-token order books, the token and market indexes,
//! the cache of best prices and the pinned set.

use vstd::prelude::*;
use vstd::string::*;
use dashmap::DashMap;
use dashmap::DashSet;
use crate::book::{book_after_changes, levels_map, lemma_changes_keep_wf, BookView, OrderBook};
use crate::shared::{
    book_entries, books_insert, books_new, books_remove, link_entries, links_get, links_insert,
    links_keys, links_new, links_remove, lists_keys, market_entries, markets_contains,
    markets_get, markets_insert, markets_keys, markets_len, markets_new, markets_remove,
    pinned_contains, pinned_entries, pinned_insert, pinned_keys, pinned_new, state_entries,
    state_get, state_insert, state_new, state_remove, TokenMarketRef, TokenMarketRefView,
    TokenState,
};
use crate::types::{market_views, Market, MarketView};

verus! {

/// What a book store holds, as plain maps keyed by id.
pub struct StoreView {
    /// market id -> market
    pub markets: Map<Seq<char>, MarketView>,
    /// token id -> cached best prices
    pub states: Map<Seq<char>, TokenState>,
    /// token id -> market and side
    pub links: Map<Seq<char>, TokenMarketRefView>,
    /// token id -> order book
    pub books: Map<Seq<char>, BookView>,
    /// pinned market ids
    pub pinned: Set<Seq<char>>,
}

impl StoreView {
    pub open spec fn empty() -> StoreView {
        StoreView {
            markets: Map::empty(),
            states: Map::empty(),
            links: Map::empty(),
            books: Map::empty(),
            pinned: Set::empty(),
        }
    }

    /// The store's invariant: every known token has a book and no other
    /// token has one; no book stores a level of size zero; the maps are
    /// finite.
    pub open spec fn wf(self) -> bool {
        &&& self.markets.dom().finite()
        &&& self.states.dom().finite()
        &&& self.links.dom().finite()
        &&& self.books.dom().finite()
        &&& self.pinned.finite()
        &&& self.books.dom() =~= self.links.dom()
        &&& forall|t: Seq<char>| #[trigger] self.books.contains_key(t) ==> self.books[t].wf()
    }

    /// The book of a token, or the empty book where it has none yet.
    pub open spec fn book_or_empty(self, token: Seq<char>) -> BookView {
        if self.books.contains_key(token) {
            self.books[token]
        } else {
            BookView::empty()
        }
    }

    /// The store with one more market: both tokens are indexed (the NO
    /// token last), each gets an empty book unless it has one, and the
    /// market is recorded under its id.
    pub open spec fn with_market(self, m: MarketView) -> StoreView {
        let links = self.links.insert(
            m.yes_token_id,
            TokenMarketRefView { market_id: m.id, is_yes: true },
        ).insert(m.no_token_id, TokenMarketRefView { market_id: m.id, is_yes: false });
        let books1 = self.books.insert(m.yes_token_id, self.book_or_empty(m.yes_token_id));
        let no_book = if books1.contains_key(m.no_token_id) {
            books1[m.no_token_id]
        } else {
            BookView::empty()
        };
        StoreView {
            markets: self.markets.insert(m.id, m),
            states: self.states,
            links,
            books: books1.insert(m.no_token_id, no_book),
            pinned: self.pinned,
        }
    }

    /// The store with the given markets added in order.
    pub open spec fn with_markets(self, ms: Seq<MarketView>) -> StoreView
        decreases ms.len(),
    {
        if ms.len() == 0 {
            self
        } else {
            self.with_markets(ms.drop_last()).with_market(ms.last())
        }
    }

    /// The store without a market: the market and everything held for its
    /// two tokens are gone. Unchanged where the market is unknown.
    pub open spec fn without_market(self, id: Seq<char>) -> StoreView {
        if !self.markets.contains_key(id) {
            self
        } else {
            let m = self.markets[id];
            StoreView {
                markets: self.markets.remove(id),
                states: self.states.remove(m.yes_token_id).remove(m.no_token_id),
                links: self.links.remove(m.yes_token_id).remove(m.no_token_id),
                books: self.books.remove(m.yes_token_id).remove(m.no_token_id),
                pinned: self.pinned,
            }
        }
    }

    /// The store with a market pinned.
    pub open spec fn with_pin(self, id: Seq<char>) -> StoreView {
        StoreView { pinned: self.pinned.insert(id), ..self }
    }

    /// The store with the cached prices of a token set.
    pub open spec fn with_price(self, token: Seq<char>, state: TokenState) -> StoreView {
        StoreView { states: self.states.insert(token, state), ..self }
    }

    /// The store with a token's book replaced, and the cache written if
    /// `write` holds.
    pub open spec fn with_book(self, token: Seq<char>, book: BookView, write: bool) -> StoreView {
        let state = TokenState {
            best_ask: book.best_ask_or_zero(),
            best_bid: book.best_bid_or_zero(),
        };
        StoreView {
            books: self.books.insert(token, book),
            states: if write {
                self.states.insert(token, state)
            } else {
                self.states
            },
            ..self
        }
    }

    /// Whether a token has a strictly positive cached best ask.
    pub open spec fn has_positive_ask(self, token: Seq<char>) -> bool {
        self.states.contains_key(token) && self.states[token].best_ask > 0
    }

    /// The store after a snapshot for a token. Unchanged where the token is
    /// unknown. The cache is written when either best price is positive.
    pub open spec fn after_snapshot(
        self,
        token: Seq<char>,
        asks: Seq<(u32, u64)>,
        bids: Seq<(u32, u64)>,
    ) -> StoreView {
        if !self.links.contains_key(token) {
            self
        } else {
            let book = BookView { asks: levels_map(asks), bids: levels_map(bids) };
            self.with_book(
                token,
                book,
                book.best_ask_or_zero() > 0 || book.best_bid_or_zero() > 0,
            )
        }
    }

    /// The book of a token after a sequence of level changes.
    pub open spec fn book_after(self, token: Seq<char>, changes: Seq<(u32, bool, u64)>) -> BookView {
        book_after_changes(self.book_or_empty(token), changes)
    }

    /// Whether level changes that lead to `book` write the cache: they do
    /// when the new best ask is positive, and when only the new best bid is
    /// positive unless that would replace a positive cached ask by none.
    pub open spec fn changes_write_cache(self, token: Seq<char>, book: BookView) -> bool {
        book.best_ask_or_zero() > 0 || (book.best_bid_or_zero() > 0 && !self.has_positive_ask(
            token,
        ))
    }

    /// The store after a sequence of level changes for a token. Unchanged
    /// where the token is unknown.
    pub open spec fn after_changes(self, token: Seq<char>, changes: Seq<(u32, bool, u64)>) -> StoreView {
        if !self.links.contains_key(token) {
            self
        } else {
            let book = self.book_after(token, changes);
            self.with_book(token, book, self.changes_write_cache(token, book))
        }
    }

    /// The market that owns a token, with its two token ids, where both the
    /// token and its market are known.
    pub open spec fn market_for_token(self, token: Seq<char>) -> Option<
        (Seq<char>, Seq<char>, Seq<char>),
    > {
        if self.links.contains_key(token) && self.markets.contains_key(
            self.links[token].market_id,
        ) {
            let id = self.links[token].market_id;
            Some((id, self.markets[id].yes_token_id, self.markets[id].no_token_id))
        } else {
            None
        }
    }

    /// Whether both tokens of a known market have a positive cached ask.
    pub open spec fn is_hydrated(self, id: Seq<char>) -> bool {
        &&& self.markets.contains_key(id)
        &&& self.has_positive_ask(self.markets[id].yes_token_id)
        &&& self.has_positive_ask(self.markets[id].no_token_id)
    }

    /// `(market id, yes ask, no ask, yes bid, no bid)` for the market that
    /// owns a token, where that market is hydrated.
    pub open spec fn spread_inputs(self, token: Seq<char>) -> Option<
        (Seq<char>, u32, u32, u32, u32),
    > {
        match self.market_for_token(token) {
            Some((id, yes, no)) => if self.is_hydrated(id) {
                Some(
                    (
                        id,
                        self.states[yes].best_ask,
                        self.states[no].best_ask,
                        self.states[yes].best_bid,
                        self.states[no].best_bid,
                    ),
                )
            } else {
                None
            },
            None => None,
        }
    }

    /// The ids of the hydrated markets.
    pub open spec fn hydrated_ids(self) -> Set<Seq<char>> {
        self.markets.dom().filter(|id: Seq<char>| self.is_hydrated(id))
    }
}

/// Adding a market keeps the store's invariant.
pub proof fn lemma_with_market_wf(s: StoreView, m: MarketView)
    requires
        s.wf(),
    ensures
        s.with_market(m).wf(),
{
    let r = s.with_market(m);
    assert(r.books.dom() =~= r.links.dom());
    assert forall|t: Seq<char>| #[trigger] r.books.contains_key(t) implies r.books[t].wf() by {
        if t != m.yes_token_id && t != m.no_token_id {
            assert(s.books.contains_key(t));
        } else if s.books.contains_key(t) {
        }
    }
}

/// Removing a market keeps the store's invariant.
pub proof fn lemma_without_market_wf(s: StoreView, id: Seq<char>)
    requires
        s.wf(),
    ensures
        s.without_market(id).wf(),
{
    let r = s.without_market(id);
    if s.markets.contains_key(id) {
        assert(r.books.dom() =~= r.links.dom());
        assert forall|t: Seq<char>| #[trigger] r.books.contains_key(t) implies r.books[t].wf() by {
            assert(s.books.contains_key(t));
        }
    }
}

/// Replacing the book of a known token by a book without zero sizes keeps
/// the store's invariant.
pub proof fn lemma_with_book_wf(s: StoreView, token: Seq<char>, book: BookView, write: bool)
    requires
        s.wf(),
        s.links.contains_key(token),
        book.wf(),
    ensures
        s.with_book(token, book, write).wf(),
{
    let r = s.with_book(token, book, write);
    assert(r.books.dom() =~= r.links.dom());
    assert forall|t: Seq<char>| #[trigger] r.books.contains_key(t) implies r.books[t].wf() by {
        if t != token {
            assert(s.books.contains_key(t));
        }
    }
}

/// A snapshot keeps the store's invariant.
pub proof fn lemma_after_snapshot_wf(s: StoreView, token: Seq<char>, asks: Seq<(u32, u64)>, bids: Seq<(u32, u64)>)
    requires
        s.wf(),
    ensures
        s.after_snapshot(token, asks, bids).wf(),
{
    if s.links.contains_key(token) {
        let book = BookView { asks: levels_map(asks), bids: levels_map(bids) };
        crate::book::lemma_levels_map_positive(asks);
        crate::book::lemma_levels_map_positive(bids);
        lemma_with_book_wf(
            s,
            token,
            book,
            book.best_ask_or_zero() > 0 || book.best_bid_or_zero() > 0,
        );
    }
}

/// Snapshots are idempotent: taking the same snapshot twice leaves the
/// store as taking it once does.
pub proof fn lemma_snapshot_idempotent(s: StoreView, token: Seq<char>, asks: Seq<(u32, u64)>, bids: Seq<(u32, u64)>)
    ensures
        s.after_snapshot(token, asks, bids).after_snapshot(token, asks, bids) == s.after_snapshot(
            token,
            asks,
            bids,
        ),
{
    let once = s.after_snapshot(token, asks, bids);
    let twice = once.after_snapshot(token, asks, bids);
    if s.links.contains_key(token) {
        assert(twice.books =~= once.books);
        assert(twice.states =~= once.states);
    }
}

/// Level changes keep the store's invariant.
pub proof fn lemma_after_changes_wf(s: StoreView, token: Seq<char>, changes: Seq<(u32, bool, u64)>)
    requires
        s.wf(),
    ensures
        s.after_changes(token, changes).wf(),
{
    if s.links.contains_key(token) {
        assert(s.books.contains_key(token));
        lemma_changes_keep_wf(s.book_or_empty(token), changes);
        let book = s.book_after(token, changes);
        lemma_with_book_wf(s, token, book, s.changes_write_cache(token, book));
    }
}

/// The shared book store.
pub struct MarketStore {
    markets: DashMap<String, Market>,
    token_state: DashMap<String, TokenState>,
    token_to_market: DashMap<String, TokenMarketRef>,
    token_books: DashMap<String, OrderBook>,
    pinned_ids: DashSet<String>,
}

impl View for MarketStore {
    type V = StoreView;

    closed spec fn view(&self) -> StoreView {
        StoreView {
            markets: market_entries(self.markets),
            states: state_entries(self.token_state),
            links: link_entries(self.token_to_market),
            books: book_entries(self.token_books),
            pinned: pinned_entries(self.pinned_ids),
        }
    }
}

impl MarketStore {
    /// A store that holds nothing.
    pub fn new() -> (r: Self)
        ensures
            r@ == StoreView::empty(),
            r@.wf(),
    {
        let r = MarketStore {
            markets: markets_new(),
            token_state: state_new(),
            token_to_market: links_new(),
            token_books: books_new(),
            pinned_ids: pinned_new(),
        };
        proof {
            assert(r@.markets =~= Map::empty());
            assert(r@.states =~= Map::empty());
            assert(r@.links =~= Map::empty());
            assert(r@.books =~= Map::empty());
            assert(r@.pinned =~= Set::empty());
        }
        r
    }

    /// Marks a market as pinned: its removal is reserved to whoever pinned
    /// it.
    pub fn pin_market(&mut self, market_id: &str)
        ensures
            final(self)@ == old(self)@.with_pin(market_id@),
            old(self)@.wf() ==> final(self)@.wf(),
    {
        pinned_insert(&mut self.pinned_ids, market_id.to_owned());
    }

    pub fn is_pinned(&self, market_id: &str) -> (r: bool)
        ensures
            r == self@.pinned.contains(market_id@),
    {
        pinned_contains(&self.pinned_ids, market_id)
    }

    /// The pinned market ids, each once, in no particular order.
    pub fn pinned_ids(&self) -> (r: Vec<String>)
        ensures
            lists_keys(r@, self@.pinned),
    {
        pinned_keys(&self.pinned_ids)
    }

    /// Gives a token an empty book unless it has one.
    fn ensure_book(&mut self, token: &String)
        ensures
            final(self)@ == (StoreView {
                books: old(self)@.books.insert(token@, old(self)@.book_or_empty(token@)),
                ..old(self)@
            }),
    {
        let book = match books_remove(&mut self.token_books, token.as_str()) {
            Some(b) => b,
            None => OrderBook::new(),
        };
        books_insert(&mut self.token_books, token.clone(), book);
        proof {
            assert(final(self)@.books =~= old(self)@.books.insert(
                token@,
                old(self)@.book_or_empty(token@),
            ));
        }
    }

    /// Adds a market: indexes both tokens, gives each a book unless it has
    /// one, and records the market under its id.
    pub fn add_market(&mut self, market: Market)
        ensures
            final(self)@ == old(self)@.with_market(market@),
            old(self)@.wf() ==> final(self)@.wf(),
    {
        links_insert(
            &mut self.token_to_market,
            market.yes_token_id.clone(),
            TokenMarketRef { market_id: market.id.clone(), is_yes: true },
        );
        links_insert(
            &mut self.token_to_market,
            market.no_token_id.clone(),
            TokenMarketRef { market_id: market.id.clone(), is_yes: false },
        );
        self.ensure_book(&market.yes_token_id);
        self.ensure_book(&market.no_token_id);
        let ghost mv = market@;
        markets_insert(&mut self.markets, market.id.clone(), market);
        proof {
            assert(final(self)@.books =~= old(self)@.with_market(mv).books);
            if old(self)@.wf() {
                lemma_with_market_wf(old(self)@, mv);
            }
        }
    }

    /// Adds the given markets in order.
    pub fn add_markets(&mut self, markets: Vec<Market>)
        ensures
            final(self)@ == old(self)@.with_markets(market_views(markets@)),
            old(self)@.wf() ==> final(self)@.wf(),
    {
        let ghost ms = market_views(markets@);
        let mut i: usize = 0;
        while i < markets.len()
            invariant
                i <= markets.len(),
                ms == market_views(markets@),
                self@ == old(self)@.with_markets(ms.take(i as int)),
                old(self)@.wf() ==> self@.wf(),
            decreases markets.len() - i,
        {
            proof {
                assert(ms.take(i as int + 1).drop_last() == ms.take(i as int));
                assert(ms.take(i as int + 1).last() == markets@[i as int]@);
            }
            self.add_market(markets[i].clone());
            i += 1;
        }
        proof {
            assert(ms.take(markets.len() as int) == ms);
        }
    }

    pub fn markets_contains(&self, market_id: &str) -> (r: bool)
        ensures
            r == self@.markets.contains_key(market_id@),
    {
        markets_contains(&self.markets, market_id)
    }

    /// Removes a market with everything held for its two tokens. Does
    /// nothing where the market is unknown.
    pub fn remove_market(&mut self, market_id: &str)
        ensures
            final(self)@ == old(self)@.without_market(market_id@),
            old(self)@.wf() ==> final(self)@.wf(),
    {
        match markets_remove(&mut self.markets, market_id) {
            Some(market) => {
                links_remove(&mut self.token_to_market, market.yes_token_id.as_str());
                links_remove(&mut self.token_to_market, market.no_token_id.as_str());
                state_remove(&mut self.token_state, market.yes_token_id.as_str());
                state_remove(&mut self.token_state, market.no_token_id.as_str());
                let _ = books_remove(&mut self.token_books, market.yes_token_id.as_str());
                let _ = books_remove(&mut self.token_books, market.no_token_id.as_str());
            },
            None => {
                proof {
                    assert(final(self)@.markets =~= old(self)@.markets);
                }
            },
        }
        proof {
            if old(self)@.wf() {
                lemma_without_market_wf(old(self)@, market_id@);
            }
        }
    }

    /// Replaces the book of a token by a snapshot and refreshes the cache.
    /// Returns `None` and changes nothing where the token is unknown;
    /// otherwise returns the new `(best ask, best bid)`, each 0 where its
    /// side is empty.
    pub fn apply_book_snapshot(&mut self, asset_id: &str, asks: &[(u32, u64)], bids: &[(u32, u64)]) -> (r:
        Option<(u32, u32)>)
        ensures
            final(self)@ == old(self)@.after_snapshot(asset_id@, asks@, bids@),
            old(self)@.wf() ==> final(self)@.wf(),
            r is Some <==> old(self)@.links.contains_key(asset_id@),
            r is Some ==> r->0 == (
                final(self)@.books[asset_id@].best_ask_or_zero(),
                final(self)@.books[asset_id@].best_bid_or_zero(),
            ),
    {
        if links_get(&self.token_to_market, asset_id).is_none() {
            return None;
        }
        let mut book = match books_remove(&mut self.token_books, asset_id) {
            Some(b) => b,
            None => OrderBook::new(),
        };
        book.apply_snapshot(asks, bids);
        let (best_ask, best_bid) = book.best_prices();
        let ghost bv = book@;
        books_insert(&mut self.token_books, asset_id.to_owned(), book);
        if best_ask > 0 || best_bid > 0 {
            state_insert(&mut self.token_state, asset_id.to_owned(), TokenState { best_ask, best_bid });
        }
        proof {
            assert(bv == BookView { asks: levels_map(asks@), bids: levels_map(bids@) });
            assert(final(self)@.books =~= old(self)@.books.insert(asset_id@, bv));
            if old(self)@.wf() {
                lemma_with_book_wf(old(self)@, asset_id@, bv, best_ask > 0 || best_bid > 0);
            }
        }
        Some((best_ask, best_bid))
    }

    /// Applies `(price key, is ask, size)` level changes to the book of a
    /// token, in order, and refreshes the cache. Returns `None` and changes
    /// nothing where the token is unknown; otherwise returns the new
    /// `(best ask, best bid)`.
    pub fn apply_book_changes(&mut self, asset_id: &str, changes: &[(u32, bool, u64)]) -> (r: Option<
        (u32, u32),
    >)
        ensures
            final(self)@ == old(self)@.after_changes(asset_id@, changes@),
            old(self)@.wf() ==> final(self)@.wf(),
            r is Some <==> old(self)@.links.contains_key(asset_id@),
            r is Some ==> r->0 == (
                final(self)@.books[asset_id@].best_ask_or_zero(),
                final(self)@.books[asset_id@].best_bid_or_zero(),
            ),
    {
        if links_get(&self.token_to_market, asset_id).is_none() {
            return None;
        }
        let mut book = match books_remove(&mut self.token_books, asset_id) {
            Some(b) => b,
            None => OrderBook::new(),
        };
        let ghost start = book@;
        assert(start == old(self)@.book_or_empty(asset_id@));
        let mut i: usize = 0;
        while i < changes.len()
            invariant
                i <= changes.len(),
                book@ == book_after_changes(start, changes@.take(i as int)),
            decreases changes.len() - i,
        {
            let (price, is_ask, size) = changes[i];
            proof {
                assert(changes@.take(i as int + 1).drop_last() == changes@.take(i as int));
            }
            book.apply_change(price, is_ask, size);
            i += 1;
        }
        proof {
            assert(changes@.take(changes.len() as int) == changes@);
        }
        let (best_ask, best_bid) = book.best_prices();
        let ghost bv = book@;
        books_insert(&mut self.token_books, asset_id.to_owned(), book);
        let write = if best_ask > 0 {
            true
        } else if best_bid > 0 {
            match state_get(&self.token_state, asset_id) {
                Some(cached) => cached.best_ask == 0,
                None => true,
            }
        } else {
            false
        };
        if write {
            state_insert(&mut self.token_state, asset_id.to_owned(), TokenState { best_ask, best_bid });
        }
        proof {
            assert(write == old(self)@.changes_write_cache(asset_id@, bv));
            assert(final(self)@.books =~= old(self)@.books.insert(asset_id@, bv));
            if old(self)@.wf() {
                if old(self)@.books.contains_key(asset_id@) {
                    assert(start.wf());
                }
                lemma_changes_keep_wf(start, changes@);
                lemma_with_book_wf(old(self)@, asset_id@, bv, write);
            }
        }
        Some((best_ask, best_bid))
    }

    /// Sets the cached prices of a token without touching its book.
    pub fn update_token_price(&mut self, asset_id: &str, best_ask: u32, best_bid: u32)
        ensures
            final(self)@ == old(self)@.with_price(asset_id@, TokenState { best_ask, best_bid }),
            old(self)@.wf() ==> final(self)@.wf(),
    {
        state_insert(&mut self.token_state, asset_id.to_owned(), TokenState { best_ask, best_bid });
    }

    /// The cached `(best ask, best bid)` of a token.
    pub fn best_prices(&self, asset_id: &str) -> (r: Option<(u32, u32)>)
        ensures
            r is Some <==> self@.states.contains_key(asset_id@),
            r is Some ==> r->0 == (
                self@.states[asset_id@].best_ask,
                self@.states[asset_id@].best_bid,
            ),
    {
        match state_get(&self.token_state, asset_id) {
            Some(ts) => Some((ts.best_ask, ts.best_bid)),
            None => None,
        }
    }

    /// Whether a token has a strictly positive cached best ask.
    fn has_positive_ask(&self, token: &str) -> (r: bool)
        ensures
            r == self@.has_positive_ask(token@),
    {
        match state_get(&self.token_state, token) {
            Some(ts) => ts.best_ask > 0,
            None => false,
        }
    }

    /// `(market id, yes token id, no token id)` for the market that owns a
    /// token. Reads no price.
    pub fn get_market_for_token(&self, asset_id: &str) -> (r: Option<(String, String, String)>)
        ensures
            match r {
                Some(t) => self@.market_for_token(asset_id@) == Some((t.0@, t.1@, t.2@)),
                None => self@.market_for_token(asset_id@) is None,
            },
    {
        let token_ref = match links_get(&self.token_to_market, asset_id) {
            Some(t) => t,
            None => {
                return None;
            },
        };
        let market = match markets_get(&self.markets, token_ref.market_id.as_str()) {
            Some(m) => m,
            None => {
                return None;
            },
        };
        Some((token_ref.market_id, market.yes_token_id, market.no_token_id))
    }

    /// `(market id, yes ask, no ask, yes bid, no bid)` for the market that
    /// owns a token, where both of its tokens have a positive cached ask.
    pub fn get_spread_inputs(&self, asset_id: &str) -> (r: Option<(String, u32, u32, u32, u32)>)
        ensures
            match r {
                Some(t) => self@.spread_inputs(asset_id@) == Some((t.0@, t.1, t.2, t.3, t.4)),
                None => self@.spread_inputs(asset_id@) is None,
            },
    {
        let (market_id, yes, no) = match self.get_market_for_token(asset_id) {
            Some(t) => t,
            None => {
                return None;
            },
        };
        let yes_state = match state_get(&self.token_state, yes.as_str()) {
            Some(s) => s,
            None => {
                return None;
            },
        };
        let no_state = match state_get(&self.token_state, no.as_str()) {
            Some(s) => s,
            None => {
                return None;
            },
        };
        if yes_state.best_ask == 0 || no_state.best_ask == 0 {
            return None;
        }
        Some((market_id, yes_state.best_ask, no_state.best_ask, yes_state.best_bid, no_state.best_bid))
    }

    pub fn get_market(&self, market_id: &str) -> (r: Option<Market>)
        ensures
            r is Some <==> self@.markets.contains_key(market_id@),
            r is Some ==> r->0@ == self@.markets[market_id@],
    {
        markets_get(&self.markets, market_id)
    }

    /// Number of markets held.
    pub fn market_count(&self) -> (r: usize)
        ensures
            r == self@.markets.dom().len(),
    {
        markets_len(&self.markets)
    }

    /// Number of hydrated markets: those whose two tokens both have a
    /// positive cached best ask.
    pub fn hydrated_market_count(&self) -> (r: usize)
        ensures
            self@.hydrated_ids().finite(),
            r == self@.hydrated_ids().len(),
    {
        let keys = markets_keys(&self.markets);
        let ghost dom = self@.markets.dom();
        let ghost mut seen: Set<Seq<char>> = Set::empty();
        let mut count: usize = 0;
        let mut i: usize = 0;
        while i < keys.len()
            invariant
                i <= keys.len(),
                count <= i,
                dom == self@.markets.dom(),
                lists_keys(keys@, dom),
                seen.finite(),
                seen.len() == count,
                forall|k: Seq<char>|
                    seen.contains(k) <==> (self@.is_hydrated(k) && exists|j: int|
                        0 <= j < i && #[trigger] keys@[j]@ == k),
            decreases keys.len() - i,
        {
            let ghost k = keys@[i as int]@;
            let hydrated = match markets_get(&self.markets, keys[i].as_str()) {
                Some(m) => self.has_positive_ask(m.yes_token_id.as_str()) && self.has_positive_ask(
                    m.no_token_id.as_str(),
                ),
                None => false,
            };
            proof {
                assert(dom.contains(k));
                assert(hydrated == self@.is_hydrated(k));
                if hydrated {
                    if seen.contains(k) {
                        let j = choose|j: int| 0 <= j < i && #[trigger] keys@[j]@ == k;
                        assert(keys@[j]@ != keys@[i as int]@);
                    }
                    let ghost before = seen;
                    seen = seen.insert(k);
                    assert forall|x: Seq<char>|
                        seen.contains(x) <==> (self@.is_hydrated(x) && exists|j: int|
                            0 <= j < i + 1 && #[trigger] keys@[j]@ == x) by {
                        if x == k {
                            assert(keys@[i as int]@ == x);
                        } else if before.contains(x) {
                            let j = choose|j: int| 0 <= j < i && #[trigger] keys@[j]@ == x;
                            assert(0 <= j < i + 1 && keys@[j]@ == x);
                        } else if self@.is_hydrated(x) && exists|j: int|
                            0 <= j < i + 1 && #[trigger] keys@[j]@ == x {
                            let j = choose|j: int| 0 <= j < i + 1 && #[trigger] keys@[j]@ == x;
                            assert(j < i);
                        }
                    }
                } else {
                    assert forall|x: Seq<char>|
                        seen.contains(x) <==> (self@.is_hydrated(x) && exists|j: int|
                            0 <= j < i + 1 && #[trigger] keys@[j]@ == x) by {
                        if seen.contains(x) {
                            let j = choose|j: int| 0 <= j < i && #[trigger] keys@[j]@ == x;
                            assert(0 <= j < i + 1 && keys@[j]@ == x);
                        } else if self@.is_hydrated(x) && exists|j: int|
                            0 <= j < i + 1 && #[trigger] keys@[j]@ == x {
                            let j = choose|j: int| 0 <= j < i + 1 && #[trigger] keys@[j]@ == x;
                            assert(j < i);
                        }
                    }
                }
            }
            if hydrated {
                count += 1;
            }
            i += 1;
        }
        proof {
            assert(seen =~= self@.hydrated_ids()) by {
                assert forall|x: Seq<char>| seen.contains(x) <==> self@.hydrated_ids().contains(
                    x,
                ) by {
                    if seen.contains(x) {
                        let j = choose|j: int| 0 <= j < i && #[trigger] keys@[j]@ == x;
                        assert(dom.contains(keys@[j]@));
                    }
                    if self@.hydrated_ids().contains(x) {
                        assert(dom.contains(x));
                    }
                }
            }
        }
        count
    }

    /// The ids of all indexed tokens, each once, in no particular order.
    pub fn all_asset_ids(&self) -> (r: Vec<String>)
        ensures
            lists_keys(r@, self@.links.dom()),
    {
        links_keys(&self.token_to_market)
    }

    /// The ids of all markets, each once, in no particular order.
    pub fn all_market_ids(&self) -> (r: Vec<String>)
        ensures
            lists_keys(r@, self@.markets.dom()),
    {
        markets_keys(&self.markets)
    }

    /// `[yes token id, no token id]` of a market.
    pub fn token_ids_for_market(&self, market_id: &str) -> (r: Option<Vec<String>>)
        ensures
            r is Some <==> self@.markets.contains_key(market_id@),
            r is Some ==> r->0@.len() == 2 && r->0@[0]@ == self@.markets[market_id@].yes_token_id
                && r->0@[1]@ == self@.markets[market_id@].no_token_id,
    {
        match markets_get(&self.markets, market_id) {
            Some(m) => {
                let mut ids: Vec<String> = Vec::new();
                ids.push(m.yes_token_id);
                ids.push(m.no_token_id);
                Some(ids)
            },
            None => None,
        }
    }
}

} // verus!
