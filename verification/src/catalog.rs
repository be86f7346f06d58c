//! Reading the market catalog: which listed markets qualify, which token is
//! which side, and what a rolling market's slug says.

use vstd::prelude::*;
use vstd::string::*;
use crate::text::{
    clone_opt, eq_ignore_case, find_last_segment, last_segment, opt_view, parse_unsigned,
    str_eq_ignore_case, to_chars, unsigned_of, views,
};
use crate::isotime::{iso_secs, parse_iso_to_unix_secs, trim_range, trimmed};
use crate::types::{market_views, Category, Market, MarketView};

verus! {

/// The end of a rolling market as its slug gives it: the last segment of
/// the slug read as seconds since the epoch, or 0 where it is no number.
pub open spec fn slug_end_ts(slug: Seq<char>) -> u64 {
    match unsigned_of(last_segment(slug)) {
        Some(v) => v,
        None => 0,
    }
}

/// Reads the end timestamp off a slug: `btc-updown-5m-1772068500` ends at
/// 1772068500.
pub fn parse_slug_end_ts(slug: &str) -> (r: u64)
    ensures
        r == slug_end_ts(slug@),
{
    let chars = to_chars(slug);
    let start = find_last_segment(&chars);
    proof {
        assert(chars@.subrange(start as int, chars.len() as int) =~= last_segment(slug@));
    }
    match parse_unsigned(&chars, start, chars.len()) {
        Some(v) => v,
        None => 0,
    }
}

/// `a * b`, stopping at the greatest value.
pub open spec fn sat_mul(a: u64, b: u64) -> u64 {
    if a * b > u64::MAX {
        u64::MAX
    } else {
        (a * b) as u64
    }
}

fn times(a: u64, b: u64) -> (r: u64)
    ensures
        r == sat_mul(a, b),
{
    match a.checked_mul(b) {
        Some(v) => v,
        None => u64::MAX,
    }
}

/// The duration in seconds that a slug prefix names in its last segment:
/// minutes before an `m` (5 where they cannot be read), hours before an `h`
/// (1 where they cannot be read), and 300 for anything else.
pub open spec fn prefix_duration_secs(prefix: Seq<char>) -> u64 {
    let seg = last_segment(prefix);
    if seg.len() > 0 && seg.last() == 'm' {
        sat_mul(
            match unsigned_of(seg.drop_last()) {
                Some(n) => n,
                None => 5,
            },
            60,
        )
    } else if seg.len() > 0 && seg.last() == 'h' {
        sat_mul(
            match unsigned_of(seg.drop_last()) {
                Some(n) => n,
                None => 1,
            },
            3600,
        )
    } else {
        300
    }
}

/// Reads the duration off a slug prefix: `btc-updown-5m` lasts 300 seconds,
/// `eth-updown-15m` 900, `sol-updown-1h` 3600.
pub fn parse_prefix_duration_secs(prefix: &str) -> (r: u64)
    ensures
        r == prefix_duration_secs(prefix@),
{
    let chars = to_chars(prefix);
    let start = find_last_segment(&chars);
    let n = chars.len();
    proof {
        assert(chars@.subrange(start as int, n as int) =~= last_segment(prefix@));
    }
    if start == n {
        return 300;
    }
    let unit = chars[n - 1];
    proof {
        assert(last_segment(prefix@).last() == unit);
        assert(chars@.subrange(start as int, n - 1) =~= last_segment(prefix@).drop_last());
    }
    if unit == 'm' {
        let count: u64 = match parse_unsigned(&chars, start, n - 1) {
            Some(v) => v,
            None => 5,
        };
        times(count, 60)
    } else if unit == 'h' {
        let count: u64 = match parse_unsigned(&chars, start, n - 1) {
            Some(v) => v,
            None => 1,
        };
        times(count, 3600)
    } else {
        300
    }
}

/// The category that a catalog tag names, whatever the case of its
/// letters; `Other` for any other tag.
pub open spec fn category_of(s: Seq<char>) -> Category {
    if eq_ignore_case(s, "sports"@) {
        Category::Sports
    } else if eq_ignore_case(s, "weather"@) {
        Category::Weather
    } else if eq_ignore_case(s, "crypto"@) {
        Category::Crypto
    } else if eq_ignore_case(s, "politics"@) {
        Category::Politics
    } else if eq_ignore_case(s, "economics"@) {
        Category::Economics
    } else {
        Category::Other
    }
}

/// Reads a catalog tag as a category.
pub fn parse_category_str(s: &str) -> (r: Category)
    ensures
        r == category_of(s@),
{
    if str_eq_ignore_case(s, "sports") {
        Category::Sports
    } else if str_eq_ignore_case(s, "weather") {
        Category::Weather
    } else if str_eq_ignore_case(s, "crypto") {
        Category::Crypto
    } else if str_eq_ignore_case(s, "politics") {
        Category::Politics
    } else if str_eq_ignore_case(s, "economics") {
        Category::Economics
    } else {
        Category::Other
    }
}

/// Whether an outcome label names the YES side: `Yes` or `Up`, in any case.
pub open spec fn is_yes_label(s: Seq<char>) -> bool {
    eq_ignore_case(s, "Yes"@) || eq_ignore_case(s, "Up"@)
}

/// Whether an outcome label names the NO side: `No` or `Down`, in any case.
pub open spec fn is_no_label(s: Seq<char>) -> bool {
    eq_ignore_case(s, "No"@) || eq_ignore_case(s, "Down"@)
}

/// Whether `i` is the first outcome with a YES label.
pub open spec fn is_first_yes(outcomes: Seq<Seq<char>>, i: int) -> bool {
    &&& 0 <= i < outcomes.len()
    &&& is_yes_label(outcomes[i])
    &&& forall|j: int| 0 <= j < i ==> !is_yes_label(#[trigger] outcomes[j])
}

/// Whether `i` is the first outcome with a NO label.
pub open spec fn is_first_no(outcomes: Seq<Seq<char>>, i: int) -> bool {
    &&& 0 <= i < outcomes.len()
    &&& is_no_label(outcomes[i])
    &&& forall|j: int| 0 <= j < i ==> !is_no_label(#[trigger] outcomes[j])
}

/// Which outcome is the YES side and which the NO side: the first with a
/// YES label and the first with a NO label where there are both; else, for
/// exactly two outcomes, the first and the second; else none.
pub open spec fn sides_of(outcomes: Seq<Seq<char>>) -> Option<(int, int)> {
    if (exists|y: int| is_first_yes(outcomes, y)) && (exists|n: int| is_first_no(outcomes, n)) {
        Some((choose|y: int| is_first_yes(outcomes, y), choose|n: int| is_first_no(outcomes, n)))
    } else if outcomes.len() == 2 {
        Some((0, 1))
    } else {
        None
    }
}

fn label_is_yes(s: &str) -> (r: bool)
    ensures
        r == is_yes_label(s@),
{
    str_eq_ignore_case(s, "Yes") || str_eq_ignore_case(s, "Up")
}

fn label_is_no(s: &str) -> (r: bool)
    ensures
        r == is_no_label(s@),
{
    str_eq_ignore_case(s, "No") || str_eq_ignore_case(s, "Down")
}

/// Finds which outcome is the YES side and which the NO side.
pub fn resolve_outcomes(outcomes: &Vec<String>) -> (r: Option<(usize, usize)>)
    ensures
        match r {
            Some(p) => sides_of(views(outcomes@)) == Some((p.0 as int, p.1 as int)),
            None => sides_of(views(outcomes@)) is None,
        },
        match r {
            Some(p) => p.0 < outcomes.len() && p.1 < outcomes.len(),
            None => true,
        },
{
    let ghost vs = views(outcomes@);
    let mut yes_idx: Option<usize> = None;
    let mut no_idx: Option<usize> = None;
    let mut i: usize = 0;
    while i < outcomes.len()
        invariant
            i <= outcomes.len(),
            vs == views(outcomes@),
            match yes_idx {
                Some(y) => is_first_yes(vs, y as int) && y < i,
                None => forall|j: int| 0 <= j < i ==> !is_yes_label(#[trigger] vs[j]),
            },
            match no_idx {
                Some(n) => is_first_no(vs, n as int) && n < i,
                None => forall|j: int| 0 <= j < i ==> !is_no_label(#[trigger] vs[j]),
            },
        decreases outcomes.len() - i,
    {
        proof {
            assert(vs[i as int] == outcomes@[i as int]@);
        }
        if yes_idx.is_none() && label_is_yes(outcomes[i].as_str()) {
            yes_idx = Some(i);
        }
        if no_idx.is_none() && label_is_no(outcomes[i].as_str()) {
            no_idx = Some(i);
        }
        i += 1;
    }
    match (yes_idx, no_idx) {
        (Some(y), Some(n)) => {
            proof {
                let cy = choose|c: int| is_first_yes(vs, c);
                let cn = choose|c: int| is_first_no(vs, c);
                assert(is_first_yes(vs, cy) && is_first_no(vs, cn));
                assert(cy == y) by {
                    if cy < y {
                        assert(!is_yes_label(vs[cy]));
                    }
                    if y < cy {
                        assert(!is_yes_label(vs[y as int]));
                    }
                }
                assert(cn == n) by {
                    if cn < n {
                        assert(!is_no_label(vs[cn]));
                    }
                    if n < cn {
                        assert(!is_no_label(vs[n as int]));
                    }
                }
            }
            Some((y, n))
        },
        _ => {
            proof {
                if yes_idx is None {
                    assert forall|c: int| !is_first_yes(vs, c) by {
                        if 0 <= c < vs.len() {
                            assert(!is_yes_label(vs[c]));
                        }
                    }
                } else {
                    assert forall|c: int| !is_first_no(vs, c) by {
                        if 0 <= c < vs.len() {
                            assert(!is_no_label(vs[c]));
                        }
                    }
                }
            }
            if outcomes.len() == 2 {
                Some((0, 1))
            } else {
                None
            }
        },
    }
}

/// What the catalog lists of one market, as far as the scanner reads it.
/// Amounts are in hundredths of a unit.
#[derive(Debug)]
pub struct GammaMarket {
    pub condition_id: Option<String>,
    /// The ids of the market's tokens, in the order of its outcomes. Empty
    /// where the catalog gives none that can be read.
    pub token_ids: Vec<String>,
    /// The labels of the market's outcomes. Empty where the catalog gives
    /// none that can be read.
    pub outcomes: Vec<String>,
    pub question: Option<String>,
    pub end_date_iso: Option<String>,
    /// The category tag of the market's first event.
    pub category: Option<String>,
    pub volume_24h_cents: u64,
    pub liquidity_cents: u64,
    pub total_volume_cents: Option<u64>,
}

pub struct GammaMarketView {
    pub condition_id: Option<Seq<char>>,
    pub token_ids: Seq<Seq<char>>,
    pub outcomes: Seq<Seq<char>>,
    pub question: Option<Seq<char>>,
    pub end_date_iso: Option<Seq<char>>,
    pub category: Option<Seq<char>>,
    pub volume_24h_cents: u64,
    pub liquidity_cents: u64,
    pub total_volume_cents: Option<u64>,
}

impl View for GammaMarket {
    type V = GammaMarketView;

    open spec fn view(&self) -> GammaMarketView {
        GammaMarketView {
            condition_id: opt_view(self.condition_id),
            token_ids: views(self.token_ids@),
            outcomes: views(self.outcomes@),
            question: opt_view(self.question),
            end_date_iso: opt_view(self.end_date_iso),
            category: opt_view(self.category),
            volume_24h_cents: self.volume_24h_cents,
            liquidity_cents: self.liquidity_cents,
            total_volume_cents: self.total_volume_cents,
        }
    }
}

/// What a listed market must meet to be tracked.
#[derive(Debug, Clone, Copy, PartialEq, Eq, Structural)]
pub struct ScanFilters {
    /// Hard cap on the number of tracked markets.
    pub max_markets: usize,
    pub min_volume_24h_cents: u64,
    pub min_liquidity_cents: u64,
    /// Least number of seconds that a market must still have to run.
    pub min_expiry_secs: i64,
    /// Greatest number of seconds that a market may still have to run.
    pub max_expiry_secs: i64,
}

/// Why a listed market does not qualify.
#[derive(Debug, PartialEq, Eq)]
pub enum Rejection {
    /// Fewer than two tokens, no token for a side, or no market id.
    NoTokens,
    /// The outcomes do not tell the sides apart. Carries the question and
    /// the outcomes.
    NoOutcomes(String, Vec<String>),
    LowVolume,
    LowLiquidity,
    /// No end date that can be read, or one outside the window.
    Expiry,
}

pub enum RejectionView {
    NoTokens,
    NoOutcomes(Seq<char>, Seq<Seq<char>>),
    LowVolume,
    LowLiquidity,
    Expiry,
}

impl View for Rejection {
    type V = RejectionView;

    open spec fn view(&self) -> RejectionView {
        match self {
            Rejection::NoTokens => RejectionView::NoTokens,
            Rejection::NoOutcomes(q, o) => RejectionView::NoOutcomes(q@, views(o@)),
            Rejection::LowVolume => RejectionView::LowVolume,
            Rejection::LowLiquidity => RejectionView::LowLiquidity,
            Rejection::Expiry => RejectionView::Expiry,
        }
    }
}

/// The string, or `fallback` where there is none.
pub open spec fn or_text(s: Option<Seq<char>>, fallback: Seq<char>) -> Seq<char> {
    match s {
        Some(x) => x,
        None => fallback,
    }
}

/// The market that a listing describes, given its id, its sides and the
/// category to take where the listing names none.
pub open spec fn market_of(g: GammaMarketView, id: Seq<char>, yes: int, no: int, fallback: Category) -> MarketView {
    MarketView {
        id,
        question: or_text(g.question, Seq::empty()),
        category: match g.category {
            Some(c) => category_of(c),
            None => fallback,
        },
        end_date_iso: g.end_date_iso,
        total_volume_cents: g.total_volume_cents,
        yes_token_id: g.token_ids[yes],
        no_token_id: g.token_ids[no],
    }
}

/// The market that a listing describes, without regard to volume,
/// liquidity or expiry: `None` where the listing has no id, fewer than two
/// tokens or outcomes, outcomes that do not tell the sides apart, or no
/// token for a side. A listing without a category counts as crypto.
pub open spec fn unfiltered_market(g: GammaMarketView) -> Option<MarketView> {
    match g.condition_id {
        None => None,
        Some(id) => if g.token_ids.len() < 2 || g.outcomes.len() < 2 {
            None
        } else {
            match sides_of(g.outcomes) {
                Some((y, n)) => if y < g.token_ids.len() && n < g.token_ids.len() {
                    Some(market_of(g, id, y, n, Category::Crypto))
                } else {
                    None
                },
                None => None,
            }
        },
    }
}

/// Whether an end date lies in the window: it can be read, and from `now`
/// it is at least the least and at most the greatest number of seconds
/// away.
pub open spec fn expiry_in_window(end_date_iso: Option<Seq<char>>, f: ScanFilters, now_secs: i64) -> bool {
    match end_date_iso {
        Some(e) => match iso_secs(e) {
            Some(end) => f.min_expiry_secs <= end - now_secs && end - now_secs <= f.max_expiry_secs,
            None => false,
        },
        None => false,
    }
}

/// The market that a listing describes, or the first reason why it does
/// not qualify. The reasons are looked for in this order: tokens, outcomes,
/// volume, liquidity, expiry, id. A listing without a category counts as
/// other.
pub open spec fn checked_market(g: GammaMarketView, f: ScanFilters, now_secs: i64) -> Result<
    MarketView,
    RejectionView,
> {
    if g.token_ids.len() < 2 {
        Err(RejectionView::NoTokens)
    } else {
        match sides_of(g.outcomes) {
            None => Err(RejectionView::NoOutcomes(or_text(g.question, "?"@), g.outcomes)),
            Some((y, n)) => if !(y < g.token_ids.len() && n < g.token_ids.len()) {
                Err(RejectionView::NoTokens)
            } else if g.volume_24h_cents < f.min_volume_24h_cents {
                Err(RejectionView::LowVolume)
            } else if g.liquidity_cents < f.min_liquidity_cents {
                Err(RejectionView::LowLiquidity)
            } else if !expiry_in_window(g.end_date_iso, f, now_secs) {
                Err(RejectionView::Expiry)
            } else if or_text(g.condition_id, Seq::empty()).len() == 0 {
                Err(RejectionView::NoTokens)
            } else {
                Ok(market_of(g, g.condition_id->0, y, n, Category::Other))
            },
        }
    }
}

/// The view of a market or of the reason why there is none.
pub open spec fn verdict_view(r: Result<Market, Rejection>) -> Result<MarketView, RejectionView> {
    match r {
        Ok(m) => Ok(m@),
        Err(e) => Err(e@),
    }
}

/// The view of an optional market.
pub open spec fn opt_market_view(r: Option<Market>) -> Option<MarketView> {
    match r {
        Some(m) => Some(m@),
        None => None,
    }
}

/// Clones a list of strings.
pub fn clone_strings(v: &Vec<String>) -> (r: Vec<String>)
    ensures
        views(r@) == views(v@),
        r@.len() == v@.len(),
{
    let mut out: Vec<String> = Vec::new();
    let mut i: usize = 0;
    while i < v.len()
        invariant
            i <= v.len(),
            out@.len() == i,
            forall|j: int| 0 <= j < i ==> (#[trigger] out@[j])@ == v@[j]@,
        decreases v.len() - i,
    {
        out.push(v[i].clone());
        i += 1;
    }
    proof {
        assert(views(out@) =~= views(v@));
    }
    out
}

/// Builds the market that a listing describes.
fn build_market(g: &GammaMarket, id: String, yes: usize, no: usize, fallback: Category) -> (r: Market)
    requires
        yes < g.token_ids.len(),
        no < g.token_ids.len(),
    ensures
        r@ == market_of(g@, id@, yes as int, no as int, fallback),
{
    let question = match &g.question {
        Some(q) => q.clone(),
        None => String::new(),
    };
    let category = match &g.category {
        Some(c) => parse_category_str(c.as_str()),
        None => fallback,
    };
    proof {
        assert(views(g.token_ids@)[yes as int] == g.token_ids@[yes as int]@);
        assert(views(g.token_ids@)[no as int] == g.token_ids@[no as int]@);
    }
    Market {
        id,
        question,
        category,
        end_date_iso: clone_opt(&g.end_date_iso),
        total_volume_cents: g.total_volume_cents,
        yes_token_id: g.token_ids[yes].clone(),
        no_token_id: g.token_ids[no].clone(),
    }
}

/// Reads a listing as a market without applying any filter.
pub fn parse_gamma_market_unfiltered(g: &GammaMarket) -> (r: Option<Market>)
    ensures
        opt_market_view(r) == unfiltered_market(g@),
{
    let id = match &g.condition_id {
        Some(id) => id.clone(),
        None => {
            return None;
        },
    };
    if g.token_ids.len() < 2 || g.outcomes.len() < 2 {
        return None;
    }
    match resolve_outcomes(&g.outcomes) {
        Some((y, n)) => {
            if y < g.token_ids.len() && n < g.token_ids.len() {
                Some(build_market(g, id, y, n, Category::Crypto))
            } else {
                None
            }
        },
        None => None,
    }
}

/// Whether an end date lies in the window.
fn check_expiry(end_date_iso: &Option<String>, filters: &ScanFilters, now_secs: i64) -> (r: bool)
    ensures
        r == expiry_in_window(opt_view(*end_date_iso), *filters, now_secs),
{
    match end_date_iso {
        Some(e) => match parse_iso_to_unix_secs(e.as_str()) {
            Some(end) => {
                // both are far from the ends of i128
                let until: i128 = end as i128 - now_secs as i128;
                filters.min_expiry_secs as i128 <= until && until <= filters.max_expiry_secs as i128
            },
            None => false,
        },
        None => false,
    }
}

/// Reads a listing as a market, or says why it does not qualify.
pub fn parse_gamma_market_checked(g: &GammaMarket, filters: &ScanFilters, now_secs: i64) -> (r: Result<
    Market,
    Rejection,
>)
    ensures
        verdict_view(r) == checked_market(g@, *filters, now_secs),
{
    if g.token_ids.len() < 2 {
        return Err(Rejection::NoTokens);
    }
    let (y, n) = match resolve_outcomes(&g.outcomes) {
        Some(p) => p,
        None => {
            let q = match &g.question {
                Some(q) => q.clone(),
                None => String::from_str("?"),
            };
            return Err(Rejection::NoOutcomes(q, clone_strings(&g.outcomes)));
        },
    };
    if !(y < g.token_ids.len() && n < g.token_ids.len()) {
        return Err(Rejection::NoTokens);
    }
    if g.volume_24h_cents < filters.min_volume_24h_cents {
        return Err(Rejection::LowVolume);
    }
    if g.liquidity_cents < filters.min_liquidity_cents {
        return Err(Rejection::LowLiquidity);
    }
    if !check_expiry(&g.end_date_iso, filters, now_secs) {
        return Err(Rejection::Expiry);
    }
    let id = match &g.condition_id {
        Some(id) => id.clone(),
        None => {
            return Err(Rejection::NoTokens);
        },
    };
    if id.as_str().is_empty() {
        return Err(Rejection::NoTokens);
    }
    Ok(build_market(g, id, y, n, Category::Other))
}

/// Reads a listing as a market, where it qualifies.
pub fn parse_gamma_market(g: &GammaMarket, filters: &ScanFilters, now_secs: i64) -> (r: Option<
    Market,
>)
    ensures
        opt_market_view(r) == (match checked_market(g@, *filters, now_secs) {
            Ok(m) => Some(m),
            Err(_) => None,
        }),
{
    match parse_gamma_market_checked(g, filters, now_secs) {
        Ok(m) => Some(m),
        Err(_) => None,
    }
}

/// Greatest number of rejected outcome lists kept as samples.
pub const OUTCOME_SAMPLES_MAX: usize = 10;

/// Number of listings asked for per page of the catalog.
pub const CATALOG_PAGE_SIZE: usize = 500;

/// `x + n`, stopping at the greatest value.
pub open spec fn sat_add(x: usize, n: usize) -> usize {
    if x + n > usize::MAX {
        usize::MAX
    } else {
        (x + n) as usize
    }
}

/// Counts of one fetch of the catalog. Each count stops at `usize::MAX`.
#[derive(Debug)]
pub struct FetchStats {
    /// Listings received.
    pub api_total: usize,
    pub rejected_no_tokens: usize,
    pub rejected_no_outcomes: usize,
    pub rejected_low_volume: usize,
    pub rejected_low_liquidity: usize,
    pub rejected_expiry: usize,
    /// Listings that qualified.
    pub qualified: usize,
    /// The question and outcomes of the first listings rejected for their
    /// outcomes.
    pub outcome_samples: Vec<(String, Vec<String>)>,
}

pub struct FetchStatsView {
    pub api_total: usize,
    pub rejected_no_tokens: usize,
    pub rejected_no_outcomes: usize,
    pub rejected_low_volume: usize,
    pub rejected_low_liquidity: usize,
    pub rejected_expiry: usize,
    pub qualified: usize,
    pub outcome_samples: Seq<(Seq<char>, Seq<Seq<char>>)>,
}

impl View for FetchStats {
    type V = FetchStatsView;

    open spec fn view(&self) -> FetchStatsView {
        FetchStatsView {
            api_total: self.api_total,
            rejected_no_tokens: self.rejected_no_tokens,
            rejected_no_outcomes: self.rejected_no_outcomes,
            rejected_low_volume: self.rejected_low_volume,
            rejected_low_liquidity: self.rejected_low_liquidity,
            rejected_expiry: self.rejected_expiry,
            qualified: self.qualified,
            outcome_samples: self.outcome_samples@.map_values(
                |p: (String, Vec<String>)| (p.0@, views(p.1@)),
            ),
        }
    }
}

impl FetchStatsView {
    pub open spec fn zero() -> FetchStatsView {
        FetchStatsView {
            api_total: 0,
            rejected_no_tokens: 0,
            rejected_no_outcomes: 0,
            rejected_low_volume: 0,
            rejected_low_liquidity: 0,
            rejected_expiry: 0,
            qualified: 0,
            outcome_samples: Seq::empty(),
        }
    }

    /// The counts with one more rejection. The outcomes of the first few
    /// listings rejected for them are kept.
    pub open spec fn with_rejection(self, r: RejectionView) -> FetchStatsView {
        match r {
            RejectionView::NoTokens => FetchStatsView {
                rejected_no_tokens: sat_add(self.rejected_no_tokens, 1),
                ..self
            },
            RejectionView::NoOutcomes(q, o) => FetchStatsView {
                rejected_no_outcomes: sat_add(self.rejected_no_outcomes, 1),
                outcome_samples: if self.outcome_samples.len() < OUTCOME_SAMPLES_MAX {
                    self.outcome_samples.push((q, o))
                } else {
                    self.outcome_samples
                },
                ..self
            },
            RejectionView::LowVolume => FetchStatsView {
                rejected_low_volume: sat_add(self.rejected_low_volume, 1),
                ..self
            },
            RejectionView::LowLiquidity => FetchStatsView {
                rejected_low_liquidity: sat_add(self.rejected_low_liquidity, 1),
                ..self
            },
            RejectionView::Expiry => FetchStatsView {
                rejected_expiry: sat_add(self.rejected_expiry, 1),
                ..self
            },
        }
    }
}

impl FetchStats {
    pub fn new() -> (r: Self)
        ensures
            r@ == FetchStatsView::zero(),
    {
        let r = FetchStats {
            api_total: 0,
            rejected_no_tokens: 0,
            rejected_no_outcomes: 0,
            rejected_low_volume: 0,
            rejected_low_liquidity: 0,
            rejected_expiry: 0,
            qualified: 0,
            outcome_samples: Vec::new(),
        };
        proof {
            assert(r@.outcome_samples =~= Seq::empty());
        }
        r
    }

    /// Counts one rejection.
    pub fn record_rejection(&mut self, rejection: Rejection)
        ensures
            final(self)@ == old(self)@.with_rejection(rejection@),
    {
        match rejection {
            Rejection::NoTokens => {
                self.rejected_no_tokens = self.rejected_no_tokens.saturating_add(1);
            },
            Rejection::NoOutcomes(q, outcomes) => {
                self.rejected_no_outcomes = self.rejected_no_outcomes.saturating_add(1);
                if self.outcome_samples.len() < OUTCOME_SAMPLES_MAX {
                    let ghost prev = self@.outcome_samples;
                    self.outcome_samples.push((q, outcomes));
                    proof {
                        assert(self@.outcome_samples =~= prev.push((q@, views(outcomes@))));
                    }
                }
            },
            Rejection::LowVolume => {
                self.rejected_low_volume = self.rejected_low_volume.saturating_add(1);
            },
            Rejection::LowLiquidity => {
                self.rejected_low_liquidity = self.rejected_low_liquidity.saturating_add(1);
            },
            Rejection::Expiry => {
                self.rejected_expiry = self.rejected_expiry.saturating_add(1);
            },
        }
    }
}

/// The views of a list of listings.
pub open spec fn listing_views(v: Seq<GammaMarket>) -> Seq<GammaMarketView> {
    v.map_values(|g: GammaMarket| g@)
}

/// The qualifying markets, the counts, and whether the cap is reached,
/// after the listings of a page have been looked at in order. Once the cap
/// is reached, no further listing is looked at.
pub open spec fn after_listings(
    markets: Seq<MarketView>,
    stats: FetchStatsView,
    items: Seq<GammaMarketView>,
    f: ScanFilters,
    now_secs: i64,
) -> (Seq<MarketView>, FetchStatsView, bool)
    decreases items.len(),
{
    if items.len() == 0 {
        (markets, stats, false)
    } else {
        let before = after_listings(markets, stats, items.drop_last(), f, now_secs);
        if before.2 {
            before
        } else {
            match checked_market(items.last(), f, now_secs) {
                Ok(m) => (before.0.push(m), before.1, before.0.len() + 1 >= f.max_markets),
                Err(r) => (before.0, before.1.with_rejection(r), false),
            }
        }
    }
}

/// Looks at the listings of one page in order: counts the page, collects
/// the markets that qualify and counts the rejections of the others, until
/// the cap on the number of markets is reached. Returns whether it was.
pub fn tally_page(
    items: &Vec<GammaMarket>,
    filters: &ScanFilters,
    now_secs: i64,
    markets: &mut Vec<Market>,
    stats: &mut FetchStats,
) -> (cap_reached: bool)
    ensures
        (market_views(final(markets)@), final(stats)@, cap_reached) == after_listings(
            market_views(old(markets)@),
            (FetchStatsView {
                api_total: sat_add(old(stats)@.api_total, items@.len() as usize),
                ..old(stats)@
            }),
            listing_views(items@),
            *filters,
            now_secs,
        ),
{
    stats.api_total = stats.api_total.saturating_add(items.len());
    let ghost gv = listing_views(items@);
    let ghost m0 = market_views(markets@);
    let ghost s0 = stats@;
    let mut i: usize = 0;
    while i < items.len()
        invariant
            i <= items.len(),
            gv == listing_views(items@),
            m0 == market_views(old(markets)@),
            s0 == (FetchStatsView {
                api_total: sat_add(old(stats)@.api_total, items@.len() as usize),
                ..old(stats)@
            }),
            (market_views(markets@), stats@, false) == after_listings(
                m0,
                s0,
                gv.take(i as int),
                *filters,
                now_secs,
            ),
        decreases items.len() - i,
    {
        proof {
            assert(gv.take(i as int + 1).drop_last() =~= gv.take(i as int));
            assert(gv.take(i as int + 1).last() == items@[i as int]@);
        }
        match parse_gamma_market_checked(&items[i], filters, now_secs) {
            Ok(market) => {
                let ghost prev = market_views(markets@);
                markets.push(market);
                proof {
                    assert(market_views(markets@) =~= prev.push(market@));
                }
                if markets.len() >= filters.max_markets {
                    proof {
                        assert(after_listings(m0, s0, gv.take(i as int + 1), *filters, now_secs) == (
                            market_views(markets@),
                            stats@,
                            true,
                        ));
                        lemma_cap_stops(m0, s0, gv, i as int + 1, *filters, now_secs);
                    }
                    return true;
                }
            },
            Err(rejection) => {
                stats.record_rejection(rejection);
            },
        }
        i += 1;
    }
    proof {
        assert(gv.take(items.len() as int) =~= gv);
    }
    false
}

/// Once the cap is reached within a page, the rest of the page changes
/// nothing.
proof fn lemma_cap_stops(
    markets: Seq<MarketView>,
    stats: FetchStatsView,
    items: Seq<GammaMarketView>,
    k: int,
    f: ScanFilters,
    now_secs: i64,
)
    requires
        0 <= k <= items.len(),
        after_listings(markets, stats, items.take(k), f, now_secs).2,
    ensures
        after_listings(markets, stats, items, f, now_secs) == after_listings(
            markets,
            stats,
            items.take(k),
            f,
            now_secs,
        ),
    decreases items.len() - k,
{
    if k < items.len() {
        assert(items.take(k + 1).drop_last() =~= items.take(k));
        lemma_cap_stops(markets, stats, items, k + 1, f, now_secs);
    } else {
        assert(items.take(k) =~= items);
    }
}

/// Where the next page of the catalog starts, if there is one: a page that
/// came back short was the last.
pub fn next_page_offset(items_in_page: usize, offset: usize) -> (r: Option<usize>)
    ensures
        r == (if items_in_page < CATALOG_PAGE_SIZE || offset + CATALOG_PAGE_SIZE > usize::MAX {
            None
        } else {
            Some((offset + CATALOG_PAGE_SIZE) as usize)
        }),
{
    if items_in_page < CATALOG_PAGE_SIZE {
        None
    } else {
        offset.checked_add(CATALOG_PAGE_SIZE)
    }
}

/// The parts that commas part a text into, in order. A text without a
/// comma is one part; two commas in a row have an empty part between them.
pub open spec fn comma_parts(s: Seq<char>) -> Seq<Seq<char>>
    decreases s.len(),
{
    if s.len() == 0 {
        seq![Seq::empty()]
    } else if s.last() == ',' {
        comma_parts(s.drop_last()).push(Seq::empty())
    } else {
        let parts = comma_parts(s.drop_last());
        parts.drop_last().push(parts.last().push(s.last()))
    }
}

/// The slug prefixes among some parts: each part without the white space
/// at its ends, those that are then empty left out.
pub open spec fn prefixes_among(parts: Seq<Seq<char>>) -> Seq<Seq<char>>
    decreases parts.len(),
{
    if parts.len() == 0 {
        Seq::empty()
    } else {
        let rest = prefixes_among(parts.drop_last());
        let prefix = trimmed(parts.last());
        if prefix.len() > 0 {
            rest.push(prefix)
        } else {
            rest
        }
    }
}

/// The slug prefixes that a comma-separated list names, in order.
pub open spec fn pinned_slugs(s: Seq<char>) -> Seq<Seq<char>> {
    prefixes_among(comma_parts(s))
}

/// Adds the prefix in `chars[from..to]` to `out`, unless it is empty.
fn push_prefix(list: &str, chars: &Vec<char>, from: usize, to: usize, out: &mut Vec<String>)
    requires
        chars@ == list@,
        from <= to <= chars.len(),
    ensures
        views(final(out)@) == (if trimmed(chars@.subrange(from as int, to as int)).len() > 0 {
            views(old(out)@).push(trimmed(chars@.subrange(from as int, to as int)))
        } else {
            views(old(out)@)
        }),
{
    let (a, b) = trim_range(chars, from, to);
    let ghost prev = views(out@);
    if a < b {
        let prefix: String = list.substring_char(a, b).to_owned();
        out.push(prefix);
        proof {
            assert(views(out@) =~= prev.push(chars@.subrange(a as int, b as int)));
        }
    }
}

/// Reads the comma-separated list of pinned slug prefixes: the parts
/// between the commas, each without the white space at its ends, the empty
/// ones left out.
pub fn parse_pinned_slugs(list: &str) -> (r: Vec<String>)
    ensures
        views(r@) == pinned_slugs(list@),
{
    let chars = to_chars(list);
    let n = chars.len();
    let mut out: Vec<String> = Vec::new();
    let ghost mut done: Seq<Seq<char>> = Seq::empty();
    let mut start: usize = 0;
    let mut i: usize = 0;
    proof {
        assert(views(out@) =~= Seq::empty());
        assert(chars@.take(0) =~= Seq::empty());
        assert(comma_parts(chars@.take(0)) =~= done.push(chars@.subrange(0, 0)));
    }
    while i < n
        invariant
            start <= i <= n,
            n == chars.len(),
            chars@ == list@,
            comma_parts(chars@.take(i as int)) == done.push(chars@.subrange(start as int, i as int)),
            views(out@) == prefixes_among(done),
        decreases n - i,
    {
        let ghost upto = chars@.take(i as int);
        let ghost next = chars@.take(i as int + 1);
        let ghost segment = chars@.subrange(start as int, i as int);
        proof {
            assert(next.drop_last() =~= upto);
            assert(next.last() == chars@[i as int]);
            assert(done.push(segment).drop_last() =~= done);
            assert(done.push(segment).last() == segment);
        }
        if chars[i] == ',' {
            push_prefix(list, &chars, start, i, &mut out);
            proof {
                assert(done.push(segment).drop_last() =~= done);
                done = done.push(segment);
                assert(chars@.subrange(i as int + 1, i as int + 1) =~= Seq::<char>::empty());
            }
            start = i + 1;
        } else {
            proof {
                assert(segment.push(chars@[i as int]) =~= chars@.subrange(start as int, i as int + 1));
            }
        }
        i += 1;
    }
    push_prefix(list, &chars, start, n, &mut out);
    proof {
        let last = chars@.subrange(start as int, n as int);
        assert(chars@.take(n as int) =~= chars@);
        assert(done.push(last).drop_last() =~= done);
        assert(done.push(last).last() == last);
    }
    out
}

} // verus!
