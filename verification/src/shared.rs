//! The concurrent maps that hold the shared state, with what is taken on
//! trust about them.
//!
//! Each map is reached through a handful of functions whose contracts speak
//! of what the map holds. Updates go through `&mut`, so that a change is
//! always visible to the caller's proof. The order in which a map hands out
//! its keys is left open.

use vstd::prelude::*;
use dashmap::DashMap;
use dashmap::DashSet;
use crate::book::{BookView, OrderBook};
use crate::types::{Market, MarketView};

verus! {

/// `dashmap::DashMap`, of which nothing is known but what the functions
/// below say.
#[verifier::external_type_specification]
#[verifier::external_body]
#[verifier::reject_recursive_types(K)]
#[verifier::reject_recursive_types(V)]
#[verifier::reject_recursive_types(S)]
pub struct ExDashMap<K, V, S>(DashMap<K, V, S>);

/// `dashmap::DashSet`, of which nothing is known but what the functions
/// below say.
#[verifier::external_type_specification]
#[verifier::external_body]
#[verifier::reject_recursive_types(K)]
#[verifier::reject_recursive_types(S)]
pub struct ExDashSet<K, S>(DashSet<K, S>);

/// Cached best prices of one token, as price keys. A side without any
/// level has best price 0.
#[derive(Debug, Clone, Copy, PartialEq, Eq, Structural)]
pub struct TokenState {
    pub best_ask: u32,
    pub best_bid: u32,
}

/// The market that a token belongs to, and which side of it the token is.
#[derive(Debug)]
pub struct TokenMarketRef {
    pub market_id: String,
    pub is_yes: bool,
}

/// A token's market reference as plain values.
pub struct TokenMarketRefView {
    pub market_id: Seq<char>,
    pub is_yes: bool,
}

impl View for TokenMarketRef {
    type V = TokenMarketRefView;

    open spec fn view(&self) -> TokenMarketRefView {
        TokenMarketRefView { market_id: self.market_id@, is_yes: self.is_yes }
    }
}

impl Clone for TokenMarketRef {
    fn clone(&self) -> (r: Self)
        ensures
            r == *self,
    {
        TokenMarketRef { market_id: self.market_id.clone(), is_yes: self.is_yes }
    }
}

/// Whether `keys` lists the keys of a map with domain `dom`, each once, in
/// some order.
pub open spec fn lists_keys(keys: Seq<String>, dom: Set<Seq<char>>) -> bool {
    &&& forall|i: int| 0 <= i < keys.len() ==> dom.contains(#[trigger] keys[i]@)
    &&& forall|k: Seq<char>| dom.contains(k) ==> exists|i: int| 0 <= i < keys.len() && #[trigger] keys[i]@ == k
    &&& forall|i: int, j: int| 0 <= i < j < keys.len() ==> #[trigger] keys[i]@ != #[trigger] keys[j]@
}

// ---------------------------------------------------------------------
// market id -> market
// ---------------------------------------------------------------------
/// What the market map holds: for each market id, the market.
pub uninterp spec fn market_entries(m: DashMap<String, Market>) -> Map<Seq<char>, MarketView>;

/// `DashMap::new`: a map that holds nothing.
#[verifier::external_body]
pub(crate) fn markets_new() -> (r: DashMap<String, Market>)
    ensures
        market_entries(r).is_empty(),
{
    DashMap::new()
}

/// `DashMap::insert`: afterwards the key maps to the value, and every other
/// key is as before.
#[verifier::external_body]
pub(crate) fn markets_insert(m: &mut DashMap<String, Market>, key: String, value: Market)
    ensures
        market_entries(*final(m)) == market_entries(*old(m)).insert(key@, value@),
{
    m.insert(key, value);
}

/// `DashMap::remove`: hands out the value that the key mapped to, if any;
/// afterwards the key is absent, and every other key is as before.
#[verifier::external_body]
pub(crate) fn markets_remove(m: &mut DashMap<String, Market>, key: &str) -> (r: Option<Market>)
    ensures
        market_entries(*final(m)) == market_entries(*old(m)).remove(key@),
        r is Some <==> market_entries(*old(m)).contains_key(key@),
        r is Some ==> r->0@ == market_entries(*old(m))[key@],
{
    m.remove(key).map(|kv| kv.1)
}

/// `DashMap::get`, cloned out: the value that the key maps to, if any.
#[verifier::external_body]
pub(crate) fn markets_get(m: &DashMap<String, Market>, key: &str) -> (r: Option<Market>)
    ensures
        r is Some <==> market_entries(*m).contains_key(key@),
        r is Some ==> r->0@ == market_entries(*m)[key@],
{
    m.get(key).map(|e| e.value().clone())
}

/// `DashMap::contains_key`: whether the key maps to anything.
#[verifier::external_body]
pub(crate) fn markets_contains(m: &DashMap<String, Market>, key: &str) -> (r: bool)
    ensures
        r == market_entries(*m).contains_key(key@),
{
    m.contains_key(key)
}

/// `DashMap::len`: the number of keys.
#[verifier::external_body]
pub(crate) fn markets_len(m: &DashMap<String, Market>) -> (r: usize)
    ensures
        r == market_entries(*m).dom().len(),
{
    m.len()
}

/// `DashMap::iter`, reduced to the keys: every key once, in some order.
#[verifier::external_body]
pub(crate) fn markets_keys(m: &DashMap<String, Market>) -> (r: Vec<String>)
    ensures
        lists_keys(r@, market_entries(*m).dom()),
{
    m.iter().map(|e| e.key().clone()).collect()
}

// ---------------------------------------------------------------------
// token id -> cached best prices
// ---------------------------------------------------------------------
/// What the price cache holds: for each token id, its cached best prices.
pub uninterp spec fn state_entries(m: DashMap<String, TokenState>) -> Map<Seq<char>, TokenState>;

/// `DashMap::new`: a map that holds nothing.
#[verifier::external_body]
pub(crate) fn state_new() -> (r: DashMap<String, TokenState>)
    ensures
        state_entries(r).is_empty(),
{
    DashMap::new()
}

/// `DashMap::insert`: afterwards the key maps to the value, and every other
/// key is as before.
#[verifier::external_body]
pub(crate) fn state_insert(m: &mut DashMap<String, TokenState>, key: String, value: TokenState)
    ensures
        state_entries(*final(m)) == state_entries(*old(m)).insert(key@, value),
{
    m.insert(key, value);
}

/// `DashMap::remove`: afterwards the key is absent, and every other key is
/// as before.
#[verifier::external_body]
pub(crate) fn state_remove(m: &mut DashMap<String, TokenState>, key: &str)
    ensures
        state_entries(*final(m)) == state_entries(*old(m)).remove(key@),
{
    m.remove(key);
}

/// `DashMap::get`, copied out: the value that the key maps to, if any.
#[verifier::external_body]
pub(crate) fn state_get(m: &DashMap<String, TokenState>, key: &str) -> (r: Option<TokenState>)
    ensures
        r is Some <==> state_entries(*m).contains_key(key@),
        r is Some ==> r->0 == state_entries(*m)[key@],
{
    m.get(key).map(|e| *e.value())
}

// ---------------------------------------------------------------------
// token id -> market reference
// ---------------------------------------------------------------------
/// What the token index holds: for each token id, its market and side.
pub uninterp spec fn link_entries(m: DashMap<String, TokenMarketRef>) -> Map<
    Seq<char>,
    TokenMarketRefView,
>;

/// `DashMap::new`: a map that holds nothing.
#[verifier::external_body]
pub(crate) fn links_new() -> (r: DashMap<String, TokenMarketRef>)
    ensures
        link_entries(r).is_empty(),
{
    DashMap::new()
}

/// `DashMap::insert`: afterwards the key maps to the value, and every other
/// key is as before.
#[verifier::external_body]
pub(crate) fn links_insert(m: &mut DashMap<String, TokenMarketRef>, key: String, value: TokenMarketRef)
    ensures
        link_entries(*final(m)) == link_entries(*old(m)).insert(key@, value@),
{
    m.insert(key, value);
}

/// `DashMap::remove`: afterwards the key is absent, and every other key is
/// as before.
#[verifier::external_body]
pub(crate) fn links_remove(m: &mut DashMap<String, TokenMarketRef>, key: &str)
    ensures
        link_entries(*final(m)) == link_entries(*old(m)).remove(key@),
{
    m.remove(key);
}

/// `DashMap::get`, cloned out: the value that the key maps to, if any.
#[verifier::external_body]
pub(crate) fn links_get(m: &DashMap<String, TokenMarketRef>, key: &str) -> (r: Option<
    TokenMarketRef,
>)
    ensures
        r is Some <==> link_entries(*m).contains_key(key@),
        r is Some ==> r->0@ == link_entries(*m)[key@],
{
    m.get(key).map(|e| e.value().clone())
}

/// `DashMap::iter`, reduced to the keys: every key once, in some order.
#[verifier::external_body]
pub(crate) fn links_keys(m: &DashMap<String, TokenMarketRef>) -> (r: Vec<String>)
    ensures
        lists_keys(r@, link_entries(*m).dom()),
{
    m.iter().map(|e| e.key().clone()).collect()
}

// ---------------------------------------------------------------------
// token id -> order book
// ---------------------------------------------------------------------
/// What the book map holds: for each token id, the two sides of its book.
pub uninterp spec fn book_entries(m: DashMap<String, OrderBook>) -> Map<Seq<char>, BookView>;

/// `DashMap::new`: a map that holds nothing.
#[verifier::external_body]
pub(crate) fn books_new() -> (r: DashMap<String, OrderBook>)
    ensures
        book_entries(r).is_empty(),
{
    DashMap::new()
}

/// `DashMap::insert`: afterwards the key maps to the value, and every other
/// key is as before.
#[verifier::external_body]
pub(crate) fn books_insert(m: &mut DashMap<String, OrderBook>, key: String, value: OrderBook)
    ensures
        book_entries(*final(m)) == book_entries(*old(m)).insert(key@, value@),
{
    m.insert(key, value);
}

/// `DashMap::remove`: hands out the value that the key mapped to, if any;
/// afterwards the key is absent, and every other key is as before.
#[verifier::external_body]
pub(crate) fn books_remove(m: &mut DashMap<String, OrderBook>, key: &str) -> (r: Option<OrderBook>)
    ensures
        book_entries(*final(m)) == book_entries(*old(m)).remove(key@),
        r is Some <==> book_entries(*old(m)).contains_key(key@),
        r is Some ==> r->0@ == book_entries(*old(m))[key@],
{
    m.remove(key).map(|kv| kv.1)
}

// ---------------------------------------------------------------------
// pinned market ids
// ---------------------------------------------------------------------
/// What the pinned set holds.
pub uninterp spec fn pinned_entries(s: DashSet<String>) -> Set<Seq<char>>;

/// `DashSet::new`: a set that holds nothing.
#[verifier::external_body]
pub(crate) fn pinned_new() -> (r: DashSet<String>)
    ensures
        pinned_entries(r).is_empty(),
{
    DashSet::new()
}

/// `DashSet::insert`: afterwards the key is in the set, and every other key
/// is as before.
#[verifier::external_body]
pub(crate) fn pinned_insert(s: &mut DashSet<String>, key: String)
    ensures
        pinned_entries(*final(s)) == pinned_entries(*old(s)).insert(key@),
{
    s.insert(key);
}

/// `DashSet::contains`: whether the key is in the set.
#[verifier::external_body]
pub(crate) fn pinned_contains(s: &DashSet<String>, key: &str) -> (r: bool)
    ensures
        r == pinned_entries(*s).contains(key@),
{
    s.contains(key)
}

/// `DashSet::iter`, reduced to the keys: every key once, in some order.
#[verifier::external_body]
pub(crate) fn pinned_keys(s: &DashSet<String>) -> (r: Vec<String>)
    ensures
        lists_keys(r@, pinned_entries(*s)),
{
    s.iter().map(|e| e.key().clone()).collect()
}

} // verus!
