//! The side-aware order-book model: price levels, their ranking rules, and
//! books whose sides are kept sorted under those rules.
//!
//! Asks rank ascending by price and bids descending; within one price the
//! level with the larger size ranks first on both sides. Books are built by
//! sorting whatever levels are handed in, never mutated in place.

use vstd::prelude::*;

use crate::decimal::Decimal;
use crate::decimal::SignedDecimal;

verus! {

/// Supported exchanges.
#[derive(Clone, Copy, Debug, PartialEq, Eq, Hash, Structural)]
pub enum Exchange {
    /// No exchange recorded.
    Unknown,
    /// The Binance feed.
    Binance,
    /// The Bitstamp feed.
    Bitstamp,
}

/// Which side of a book a level was quoted on.
#[derive(Clone, Copy, Debug, PartialEq, Eq, Structural)]
pub enum LevelSide {
    /// A buy order.
    Bid,
    /// A sell order.
    Ask,
    /// No side recorded.
    Unknown,
}

/// One price/size entry of one exchange's book.
#[derive(Clone, Copy, Debug, PartialEq, Eq, Structural)]
pub struct OrderbookLevel {
    /// The quoted price.
    pub price: Decimal,
    /// The quoted size at that price.
    pub size: Decimal,
    /// The exchange the quote came from.
    pub exchange: Exchange,
    /// The side the quote was made on.
    pub side: LevelSide,
}

/// Ask ranking: `a` ranks at or before `b` when its price is lower, or the
/// prices are equal and its size is at least as large.
pub open spec fn ask_leq(a: OrderbookLevel, b: OrderbookLevel) -> bool {
    a.price@ < b.price@ || (a.price@ == b.price@ && a.size@ >= b.size@)
}

/// Bid ranking: `a` ranks at or before `b` when its price is higher, or the
/// prices are equal and its size is at least as large.
pub open spec fn bid_leq(a: OrderbookLevel, b: OrderbookLevel) -> bool {
    a.price@ > b.price@ || (a.price@ == b.price@ && a.size@ >= b.size@)
}

/// The ask side is sorted under [`ask_leq`].
pub open spec fn asks_sorted(s: Seq<OrderbookLevel>) -> bool {
    forall|i: int, j: int| 0 <= i < j < s.len() ==> #[trigger] ask_leq(s[i], s[j])
}

/// The bid side is sorted under [`bid_leq`].
pub open spec fn bids_sorted(s: Seq<OrderbookLevel>) -> bool {
    forall|i: int, j: int| 0 <= i < j < s.len() ==> #[trigger] bid_leq(s[i], s[j])
}

impl OrderbookLevel {
    /// A level on the bid side.
    pub fn bid(price: Decimal, size: Decimal, exchange: Exchange) -> (level: OrderbookLevel)
        ensures
            level == (OrderbookLevel { price, size, exchange, side: LevelSide::Bid }),
    {
        OrderbookLevel { price, size, exchange, side: LevelSide::Bid }
    }

    /// A level on the ask side.
    pub fn ask(price: Decimal, size: Decimal, exchange: Exchange) -> (level: OrderbookLevel)
        ensures
            level == (OrderbookLevel { price, size, exchange, side: LevelSide::Ask }),
    {
        OrderbookLevel { price, size, exchange, side: LevelSide::Ask }
    }

    /// A level from an exchange's raw `(price, size)` pair, side unrecorded.
    pub fn from_exchange(exchange: Exchange, tuple: (Decimal, Decimal)) -> (level: OrderbookLevel)
        ensures
            level == (OrderbookLevel {
                price: tuple.0,
                size: tuple.1,
                exchange,
                side: LevelSide::Unknown,
            }),
    {
        OrderbookLevel { price: tuple.0, size: tuple.1, exchange, side: LevelSide::Unknown }
    }
}

impl From<(Decimal, Decimal)> for OrderbookLevel {
    /// A level from a bare `(price, size)` pair, exchange and side
    /// unrecorded.
    fn from(tuple: (Decimal, Decimal)) -> (level: OrderbookLevel) {
        OrderbookLevel { price: tuple.0, size: tuple.1, exchange: Exchange::Unknown, side: LevelSide::Unknown }
    }
}

impl vstd::std_specs::convert::FromSpecImpl<(Decimal, Decimal)> for OrderbookLevel {
    open spec fn obeys_from_spec() -> bool {
        true
    }

    open spec fn from_spec(tuple: (Decimal, Decimal)) -> OrderbookLevel {
        OrderbookLevel { price: tuple.0, size: tuple.1, exchange: Exchange::Unknown, side: LevelSide::Unknown }
    }
}

/// Exact ask comparison, mirroring [`ask_leq`].
pub fn ask_le(a: OrderbookLevel, b: OrderbookLevel) -> (r: bool)
    ensures
        r == ask_leq(a, b),
{
    a.price.units < b.price.units || (a.price.units == b.price.units && a.size.units
        >= b.size.units)
}

/// Exact bid comparison, mirroring [`bid_leq`].
pub fn bid_le(a: OrderbookLevel, b: OrderbookLevel) -> (r: bool)
    ensures
        r == bid_leq(a, b),
{
    a.price.units > b.price.units || (a.price.units == b.price.units && a.size.units
        >= b.size.units)
}

/// A book: bids best-first (descending price), asks best-first (ascending
/// price), larger size first within one price on both sides.
#[derive(Clone, Debug)]
pub struct Orderbook {
    /// The bid side, best bid first.
    pub bids: Vec<OrderbookLevel>,
    /// The ask side, best ask first.
    pub asks: Vec<OrderbookLevel>,
}

impl Orderbook {
    /// Both sides are sorted under their side's ranking.
    pub open spec fn wf(self) -> bool {
        bids_sorted(self.bids@) && asks_sorted(self.asks@)
    }

    /// The empty book, a valid state before any exchange has reported.
    pub fn new() -> (book: Orderbook)
        ensures
            book.bids@ =~= Seq::<OrderbookLevel>::empty(),
            book.asks@ =~= Seq::<OrderbookLevel>::empty(),
            book.wf(),
    {
        Orderbook { bids: Vec::new(), asks: Vec::new() }
    }

    /// Builds a book from unsorted sides: each side holds exactly the levels
    /// handed in, re-ranked under its side's ordering.
    pub fn from_bids_asks(bids: Vec<OrderbookLevel>, asks: Vec<OrderbookLevel>) -> (book:
        Orderbook)
        ensures
            book.wf(),
            book.bids@.to_multiset() == bids@.to_multiset(),
            book.asks@.to_multiset() == asks@.to_multiset(),
            book.bids@.len() == bids@.len(),
            book.asks@.len() == asks@.len(),
    {
        Orderbook { bids: sort_bids(bids), asks: sort_asks(asks) }
    }

    /// A new book keeping only the first `limit` levels of each side; the
    /// kept levels stay in their order.
    pub fn limit(&self, limit: usize) -> (r: Orderbook)
        ensures
            r.bids@ == if self.bids@.len() <= limit {
                self.bids@
            } else {
                self.bids@.take(limit as int)
            },
            r.asks@ == if self.asks@.len() <= limit {
                self.asks@
            } else {
                self.asks@.take(limit as int)
            },
            self.wf() ==> r.wf(),
    {
        Orderbook { bids: take_prefix(&self.bids, limit), asks: take_prefix(&self.asks, limit) }
    }

    /// The spread, best ask price minus best bid price: exact, and absent
    /// exactly when either side is empty.
    pub fn spread(&self) -> (r: Option<SignedDecimal>)
        ensures
            match r {
                None => self.bids@.len() == 0 || self.asks@.len() == 0,
                Some(s) => self.bids@.len() > 0 && self.asks@.len() > 0 && s@ == self.asks@[0].price@
                    - self.bids@[0].price@ && s.wf(),
            },
    {
        match (self.top_bid(), self.top_ask()) {
            (Some(bid), Some(ask)) => Some(ask.signed_diff(&bid)),
            _ => None,
        }
    }

    /// The best bid price, absent when there are no bids.
    pub fn top_bid(&self) -> (r: Option<Decimal>)
        ensures
            match r {
                None => self.bids@.len() == 0,
                Some(p) => self.bids@.len() > 0 && p == self.bids@[0].price,
            },
    {
        if self.bids.len() == 0 {
            None
        } else {
            Some(self.bids[0].price)
        }
    }

    /// The best ask price, absent when there are no asks.
    pub fn top_ask(&self) -> (r: Option<Decimal>)
        ensures
            match r {
                None => self.asks@.len() == 0,
                Some(p) => self.asks@.len() > 0 && p == self.asks@[0].price,
            },
    {
        if self.asks.len() == 0 {
            None
        } else {
            Some(self.asks[0].price)
        }
    }
}

/// Inserts `level` into an ask-sorted vector, keeping it sorted.
fn insert_ask(levels: &mut Vec<OrderbookLevel>, level: OrderbookLevel)
    requires
        asks_sorted(old(levels)@),
        old(levels)@.len() < usize::MAX,
    ensures
        asks_sorted(final(levels)@),
        final(levels)@.to_multiset() == old(levels)@.to_multiset().insert(level),
        final(levels)@.len() == old(levels)@.len() + 1,
{
    let mut i: usize = 0;
    loop
        invariant
            i <= levels@.len(),
            levels@ == old(levels)@,
            asks_sorted(levels@),
            forall|j: int| 0 <= j < i ==> ask_leq(#[trigger] levels@[j], level),
        ensures
            i <= levels@.len(),
            levels@ == old(levels)@,
            forall|j: int| 0 <= j < i ==> ask_leq(#[trigger] levels@[j], level),
            i < levels@.len() ==> ask_leq(level, levels@[i as int]),
        decreases levels@.len() - i,
    {
        if i == levels.len() {
            break;
        }
        if !ask_le(levels[i], level) {
            break;
        }
        i = i + 1;
    }
    let ghost before = levels@;
    levels.insert(i, level);
    proof {
        broadcast use vstd::seq_lib::group_to_multiset_ensures;

        assert(levels@.to_multiset() == before.to_multiset().insert(level));
        assert forall|p: int, q: int| 0 <= p < q < levels@.len() implies #[trigger] ask_leq(
            levels@[p],
            levels@[q],
        ) by {
            if p < i && q > i {
                assert(ask_leq(before[p], before[q - 1]));
            }
            if p == i && q > i + 1 {
                assert(ask_leq(level, before[i as int]));
                assert(ask_leq(before[i as int], before[q - 1]));
            }
        }
    }
}

/// Inserts `level` into a bid-sorted vector, keeping it sorted.
fn insert_bid(levels: &mut Vec<OrderbookLevel>, level: OrderbookLevel)
    requires
        bids_sorted(old(levels)@),
        old(levels)@.len() < usize::MAX,
    ensures
        bids_sorted(final(levels)@),
        final(levels)@.to_multiset() == old(levels)@.to_multiset().insert(level),
        final(levels)@.len() == old(levels)@.len() + 1,
{
    let mut i: usize = 0;
    loop
        invariant
            i <= levels@.len(),
            levels@ == old(levels)@,
            bids_sorted(levels@),
            forall|j: int| 0 <= j < i ==> bid_leq(#[trigger] levels@[j], level),
        ensures
            i <= levels@.len(),
            levels@ == old(levels)@,
            forall|j: int| 0 <= j < i ==> bid_leq(#[trigger] levels@[j], level),
            i < levels@.len() ==> bid_leq(level, levels@[i as int]),
        decreases levels@.len() - i,
    {
        if i == levels.len() {
            break;
        }
        if !bid_le(levels[i], level) {
            break;
        }
        i = i + 1;
    }
    let ghost before = levels@;
    levels.insert(i, level);
    proof {
        broadcast use vstd::seq_lib::group_to_multiset_ensures;

        assert(levels@.to_multiset() == before.to_multiset().insert(level));
        assert forall|p: int, q: int| 0 <= p < q < levels@.len() implies #[trigger] bid_leq(
            levels@[p],
            levels@[q],
        ) by {
            if p < i && q > i {
                assert(bid_leq(before[p], before[q - 1]));
            }
            if p == i && q > i + 1 {
                assert(bid_leq(level, before[i as int]));
                assert(bid_leq(before[i as int], before[q - 1]));
            }
        }
    }
}

/// Sorts levels under the ask ranking; the result holds exactly the levels
/// handed in.
fn sort_asks(levels: Vec<OrderbookLevel>) -> (r: Vec<OrderbookLevel>)
    ensures
        asks_sorted(r@),
        r@.to_multiset() == levels@.to_multiset(),
        r@.len() == levels@.len(),
{
    let mut sorted_levels: Vec<OrderbookLevel> = Vec::new();
    let mut i: usize = 0;
    proof {
        assert(sorted_levels@ =~= levels@.subrange(0, 0));
    }
    while i < levels.len()
        invariant
            i <= levels@.len(),
            asks_sorted(sorted_levels@),
            sorted_levels@.len() == i,
            sorted_levels@.to_multiset() == levels@.subrange(0, i as int).to_multiset(),
        decreases levels@.len() - i,
    {
        insert_ask(&mut sorted_levels, levels[i]);
        proof {
            broadcast use vstd::seq_lib::group_to_multiset_ensures;

            assert(levels@.subrange(0, i + 1) =~= levels@.subrange(0, i as int).push(
                levels@[i as int],
            ));
        }
        i = i + 1;
    }
    proof {
        assert(levels@.subrange(0, levels@.len() as int) =~= levels@);
    }
    sorted_levels
}

/// Sorts levels under the bid ranking; the result holds exactly the levels
/// handed in.
fn sort_bids(levels: Vec<OrderbookLevel>) -> (r: Vec<OrderbookLevel>)
    ensures
        bids_sorted(r@),
        r@.to_multiset() == levels@.to_multiset(),
        r@.len() == levels@.len(),
{
    let mut sorted_levels: Vec<OrderbookLevel> = Vec::new();
    let mut i: usize = 0;
    proof {
        assert(sorted_levels@ =~= levels@.subrange(0, 0));
    }
    while i < levels.len()
        invariant
            i <= levels@.len(),
            bids_sorted(sorted_levels@),
            sorted_levels@.len() == i,
            sorted_levels@.to_multiset() == levels@.subrange(0, i as int).to_multiset(),
        decreases levels@.len() - i,
    {
        insert_bid(&mut sorted_levels, levels[i]);
        proof {
            broadcast use vstd::seq_lib::group_to_multiset_ensures;

            assert(levels@.subrange(0, i + 1) =~= levels@.subrange(0, i as int).push(
                levels@[i as int],
            ));
        }
        i = i + 1;
    }
    proof {
        assert(levels@.subrange(0, levels@.len() as int) =~= levels@);
    }
    sorted_levels
}

/// Copies the first `k` levels (or all of them, when fewer) into a new vector.
fn take_prefix(levels: &Vec<OrderbookLevel>, k: usize) -> (r: Vec<OrderbookLevel>)
    ensures
        r@ == if levels@.len() <= k {
            levels@
        } else {
            levels@.take(k as int)
        },
{
    let count = if levels.len() <= k {
        levels.len()
    } else {
        k
    };
    let mut r: Vec<OrderbookLevel> = Vec::new();
    let mut i: usize = 0;
    while i < count
        invariant
            i <= count <= levels@.len(),
            r@ =~= levels@.subrange(0, i as int),
        decreases count - i,
    {
        r.push(levels[i]);
        i = i + 1;
    }
    proof {
        if levels@.len() <= k {
            assert(r@ =~= levels@);
        } else {
            assert(r@ =~= levels@.take(k as int));
        }
    }
    r
}

/// A snapshot event handed from one exchange's feed adapter to the pipeline.
#[derive(Debug)]
pub struct OrderbookUpdateEvent {
    /// The exchange the snapshot came from.
    pub exchange: Exchange,
    /// The full book that exchange reported.
    pub orderbook: Orderbook,
}

impl OrderbookUpdateEvent {
    /// Pairs an exchange with its reported book.
    pub fn new(exchange: Exchange, orderbook: Orderbook) -> (event: OrderbookUpdateEvent)
        ensures
            event.exchange == exchange,
            event.orderbook == orderbook,
    {
        OrderbookUpdateEvent { exchange, orderbook }
    }
}

/// On a well-formed book whose prices are pairwise distinct, bids rank
/// strictly descending by price and asks strictly ascending.
pub proof fn lemma_distinct_prices_rank_strictly(book: Orderbook)
    requires
        book.wf(),
        forall|i: int, j: int| 0 <= i < j < book.bids@.len() ==> #[trigger] book.bids@[i].price@
            != #[trigger] book.bids@[j].price@,
        forall|i: int, j: int| 0 <= i < j < book.asks@.len() ==> #[trigger] book.asks@[i].price@
            != #[trigger] book.asks@[j].price@,
    ensures
        forall|i: int, j: int| 0 <= i < j < book.bids@.len() ==> #[trigger] book.bids@[i].price@
            > #[trigger] book.bids@[j].price@,
        forall|i: int, j: int| 0 <= i < j < book.asks@.len() ==> #[trigger] book.asks@[i].price@
            < #[trigger] book.asks@[j].price@,
{
    assert forall|i: int, j: int| 0 <= i < j < book.bids@.len() implies #[trigger] book.bids@[i].price@
        > #[trigger] book.bids@[j].price@ by {
        assert(bid_leq(book.bids@[i], book.bids@[j]));
    }
    assert forall|i: int, j: int| 0 <= i < j < book.asks@.len() implies #[trigger] book.asks@[i].price@
        < #[trigger] book.asks@[j].price@ by {
        assert(ask_leq(book.asks@[i], book.asks@[j]));
    }
}

/// On a well-formed book, levels sharing a price are ordered by descending
/// size, on both sides alike.
pub proof fn lemma_equal_price_orders_by_size(book: Orderbook)
    requires
        book.wf(),
    ensures
        forall|i: int, j: int| 0 <= i < j < book.bids@.len() && #[trigger] book.bids@[i].price@
            == #[trigger] book.bids@[j].price@ ==> book.bids@[i].size@ >= book.bids@[j].size@,
        forall|i: int, j: int| 0 <= i < j < book.asks@.len() && #[trigger] book.asks@[i].price@
            == #[trigger] book.asks@[j].price@ ==> book.asks@[i].size@ >= book.asks@[j].size@,
{
    assert forall|i: int, j: int| 0 <= i < j < book.bids@.len() && #[trigger] book.bids@[i].price@
        == #[trigger] book.bids@[j].price@ implies book.bids@[i].size@ >= book.bids@[j].size@ by {
        assert(bid_leq(book.bids@[i], book.bids@[j]));
    }
    assert forall|i: int, j: int| 0 <= i < j < book.asks@.len() && #[trigger] book.asks@[i].price@
        == #[trigger] book.asks@[j].price@ implies book.asks@[i].size@ >= book.asks@[j].size@ by {
        assert(ask_leq(book.asks@[i], book.asks@[j]));
    }
}

} // verus!
