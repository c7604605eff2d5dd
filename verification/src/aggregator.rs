//! The aggregator: one stored snapshot per exchange, and the merge that
//! ranks every stored level into a single depth-limited book.
//!
//! A newer snapshot for an exchange replaces the prior one outright;
//! merging concatenates every stored side, re-ranks it under the book
//! ordering, and keeps the best [`DEPTH_LIMIT`] levels per side.

use vstd::prelude::*;

use crate::order_book::Exchange;
use crate::order_book::Orderbook;
use crate::order_book::OrderbookLevel;
use crate::order_book::asks_sorted;
use crate::order_book::bids_sorted;

verus! {

/// Levels kept per side of the published merged book.
pub const DEPTH_LIMIT: usize = 10;

/// The snapshot store after filing `orderbook` under `exchange`: the entry
/// with that key is replaced in place, or appended when the key is new.
pub open spec fn upsert_model(
    s: Seq<(Exchange, Orderbook)>,
    exchange: Exchange,
    orderbook: Orderbook,
) -> Seq<(Exchange, Orderbook)>
    decreases s.len(),
{
    if s.len() == 0 {
        seq![(exchange, orderbook)]
    } else if s[0].0 == exchange {
        seq![(exchange, orderbook)] + s.drop_first()
    } else {
        seq![s[0]] + upsert_model(s.drop_first(), exchange, orderbook)
    }
}

/// No two stored snapshots share an exchange.
pub open spec fn keys_distinct(s: Seq<(Exchange, Orderbook)>) -> bool {
    forall|i: int, j: int| 0 <= i < j < s.len() ==> (#[trigger] s[i]).0 != (#[trigger] s[j]).0
}

/// Every stored book is well formed.
pub open spec fn books_wf(s: Seq<(Exchange, Orderbook)>) -> bool {
    forall|i: int| 0 <= i < s.len() ==> (#[trigger] s[i]).1.wf()
}

/// All stored bid levels, in storage order.
pub open spec fn all_bids(s: Seq<(Exchange, Orderbook)>) -> Seq<OrderbookLevel>
    decreases s.len(),
{
    if s.len() == 0 {
        Seq::empty()
    } else {
        all_bids(s.drop_last()) + s.last().1.bids@
    }
}

/// All stored ask levels, in storage order.
pub open spec fn all_asks(s: Seq<(Exchange, Orderbook)>) -> Seq<OrderbookLevel>
    decreases s.len(),
{
    if s.len() == 0 {
        Seq::empty()
    } else {
        all_asks(s.drop_last()) + s.last().1.asks@
    }
}

/// `kept` is a best-first prefix of some bid-ranked ordering of exactly the
/// levels in `pool`, truncated to `k` levels.
pub open spec fn is_ranked_bids(kept: Seq<OrderbookLevel>, pool: Seq<OrderbookLevel>, k: int) -> bool {
    exists|full: Seq<OrderbookLevel>|
        #[trigger] bids_sorted(full) && full.to_multiset() == pool.to_multiset() && kept == (
        if full.len() <= k {
            full
        } else {
            full.take(k)
        })
}

/// `kept` is a best-first prefix of some ask-ranked ordering of exactly the
/// levels in `pool`, truncated to `k` levels.
pub open spec fn is_ranked_asks(kept: Seq<OrderbookLevel>, pool: Seq<OrderbookLevel>, k: int) -> bool {
    exists|full: Seq<OrderbookLevel>|
        #[trigger] asks_sorted(full) && full.to_multiset() == pool.to_multiset() && kept == (
        if full.len() <= k {
            full
        } else {
            full.take(k)
        })
}

/// Aggregates the latest snapshot of every reporting exchange.
#[derive(Debug)]
pub struct Aggregator {
    /// The latest full book reported by each exchange, one entry per
    /// exchange.
    pub orderbooks: Vec<(Exchange, Orderbook)>,
}

impl Aggregator {
    /// Keys are unique and every stored book is well formed.
    pub open spec fn wf(self) -> bool {
        keys_distinct(self.orderbooks@) && books_wf(self.orderbooks@)
    }

    /// An aggregator with no stored snapshots.
    pub fn new() -> (a: Aggregator)
        ensures
            a.orderbooks@ =~= Seq::<(Exchange, Orderbook)>::empty(),
            a.wf(),
    {
        Aggregator { orderbooks: Vec::new() }
    }

    /// Stores `orderbook` as the latest snapshot for `exchange`, replacing
    /// any snapshot stored for it before.
    pub fn push(&mut self, exchange: Exchange, orderbook: Orderbook)
        requires
            old(self).wf(),
            orderbook.wf(),
        ensures
            final(self).wf(),
            final(self).orderbooks@ == upsert_model(old(self).orderbooks@, exchange, orderbook),
    {
        let mut i: usize = 0;
        loop
            invariant
                i <= self.orderbooks@.len(),
                *self == *old(self),
                forall|j: int| 0 <= j < i ==> (#[trigger] self.orderbooks@[j]).0 != exchange,
            ensures
                i <= self.orderbooks@.len(),
                *self == *old(self),
                forall|j: int| 0 <= j < i ==> (#[trigger] self.orderbooks@[j]).0 != exchange,
                i < self.orderbooks@.len() ==> self.orderbooks@[i as int].0 == exchange,
            decreases self.orderbooks@.len() - i,
        {
            if i == self.orderbooks.len() {
                break;
            }
            if self.orderbooks[i].0 == exchange {
                break;
            }
            i = i + 1;
        }
        if i == self.orderbooks.len() {
            self.orderbooks.push((exchange, orderbook));
            proof {
                lemma_upsert_miss(old(self).orderbooks@, exchange, orderbook);
            }
        } else {
            self.orderbooks.set(i, (exchange, orderbook));
            proof {
                lemma_upsert_hit(old(self).orderbooks@, exchange, orderbook, i as int);
            }
        }
    }

    /// How many exchanges have a stored snapshot.
    pub fn exchange_count(&self) -> (n: usize)
        ensures
            n == self.orderbooks@.len(),
    {
        self.orderbooks.len()
    }

    /// The merged book: every stored level of every exchange, re-ranked per
    /// side, truncated to [`DEPTH_LIMIT`] levels per side. Pure: the stored
    /// snapshots are left untouched.
    pub fn aggregate(&mut self) -> (merged: Orderbook)
        requires
            old(self).wf(),
        ensures
            *final(self) == *old(self),
            merged.wf(),
            is_ranked_bids(merged.bids@, all_bids(old(self).orderbooks@), DEPTH_LIMIT as int),
            is_ranked_asks(merged.asks@, all_asks(old(self).orderbooks@), DEPTH_LIMIT as int),
            merged.bids@.len() == if all_bids(old(self).orderbooks@).len() <= DEPTH_LIMIT {
                all_bids(old(self).orderbooks@).len()
            } else {
                DEPTH_LIMIT as nat
            },
            merged.asks@.len() == if all_asks(old(self).orderbooks@).len() <= DEPTH_LIMIT {
                all_asks(old(self).orderbooks@).len()
            } else {
                DEPTH_LIMIT as nat
            },
            forall|l: OrderbookLevel| merged.bids@.contains(l) ==> all_bids(
                old(self).orderbooks@,
            ).contains(l),
            forall|l: OrderbookLevel| merged.asks@.contains(l) ==> all_asks(
                old(self).orderbooks@,
            ).contains(l),
    {
        let mut bids: Vec<OrderbookLevel> = Vec::new();
        let mut asks: Vec<OrderbookLevel> = Vec::new();
        let mut i: usize = 0;
        proof {
            assert(bids@ =~= all_bids(self.orderbooks@.subrange(0, 0)));
            assert(asks@ =~= all_asks(self.orderbooks@.subrange(0, 0)));
        }
        while i < self.orderbooks.len()
            invariant
                i <= self.orderbooks@.len(),
                *self == *old(self),
                bids@ == all_bids(self.orderbooks@.subrange(0, i as int)),
                asks@ == all_asks(self.orderbooks@.subrange(0, i as int)),
            decreases self.orderbooks@.len() - i,
        {
            append_levels(&mut bids, &self.orderbooks[i].1.bids);
            append_levels(&mut asks, &self.orderbooks[i].1.asks);
            proof {
                let taken = self.orderbooks@.subrange(0, i + 1);
                assert(taken.drop_last() =~= self.orderbooks@.subrange(0, i as int));
                assert(taken.last() == self.orderbooks@[i as int]);
            }
            i = i + 1;
        }
        proof {
            assert(self.orderbooks@.subrange(0, self.orderbooks@.len() as int)
                =~= self.orderbooks@);
        }
        let full_book = Orderbook::from_bids_asks(bids, asks);
        let merged = full_book.limit(DEPTH_LIMIT);
        proof {
            assert(bids_sorted(full_book.bids@) && full_book.bids@.to_multiset() == all_bids(
                old(self).orderbooks@,
            ).to_multiset() && merged.bids@ == (if full_book.bids@.len() <= DEPTH_LIMIT as int {
                full_book.bids@
            } else {
                full_book.bids@.take(DEPTH_LIMIT as int)
            }));
            assert(asks_sorted(full_book.asks@) && full_book.asks@.to_multiset() == all_asks(
                old(self).orderbooks@,
            ).to_multiset() && merged.asks@ == (if full_book.asks@.len() <= DEPTH_LIMIT as int {
                full_book.asks@
            } else {
                full_book.asks@.take(DEPTH_LIMIT as int)
            }));
            broadcast use vstd::seq_lib::group_to_multiset_ensures;

            assert forall|l: OrderbookLevel| merged.bids@.contains(l) implies all_bids(
                old(self).orderbooks@,
            ).contains(l) by {
                assert(full_book.bids@.contains(l));
                assert(full_book.bids@.to_multiset().count(l) > 0);
            }
            assert forall|l: OrderbookLevel| merged.asks@.contains(l) implies all_asks(
                old(self).orderbooks@,
            ).contains(l) by {
                assert(full_book.asks@.contains(l));
                assert(full_book.asks@.to_multiset().count(l) > 0);
            }
        }
        merged
    }
}

impl Default for Aggregator {
    /// Same as [`Aggregator::new`]: an aggregator with no stored snapshots.
    fn default() -> (a: Aggregator)
        ensures
            a.orderbooks@ =~= Seq::<(Exchange, Orderbook)>::empty(),
            a.wf(),
    {
        Aggregator::new()
    }
}

/// Appends a copy of every level of `src` to `dst`, in order.
fn append_levels(dst: &mut Vec<OrderbookLevel>, src: &Vec<OrderbookLevel>)
    ensures
        final(dst)@ == old(dst)@ + src@,
{
    let mut j: usize = 0;
    proof {
        assert(dst@ =~= old(dst)@ + src@.subrange(0, 0));
    }
    while j < src.len()
        invariant
            j <= src@.len(),
            dst@ == old(dst)@ + src@.subrange(0, j as int),
        decreases src@.len() - j,
    {
        dst.push(src[j]);
        proof {
            assert(old(dst)@ + src@.subrange(0, j + 1) =~= (old(dst)@ + src@.subrange(
                0,
                j as int,
            )).push(src@[j as int]));
        }
        j = j + 1;
    }
    proof {
        assert(src@.subrange(0, src@.len() as int) =~= src@);
    }
}

/// Filing under a key that is already stored replaces that entry in place.
proof fn lemma_upsert_hit(
    s: Seq<(Exchange, Orderbook)>,
    exchange: Exchange,
    orderbook: Orderbook,
    i: int,
)
    requires
        0 <= i < s.len(),
        s[i].0 == exchange,
        forall|j: int| 0 <= j < i ==> (#[trigger] s[j]).0 != exchange,
    ensures
        upsert_model(s, exchange, orderbook) == s.update(i, (exchange, orderbook)),
    decreases s.len(),
{
    if i == 0 {
        assert(upsert_model(s, exchange, orderbook) =~= s.update(0, (exchange, orderbook)));
    } else {
        lemma_upsert_hit(s.drop_first(), exchange, orderbook, i - 1);
        assert(upsert_model(s, exchange, orderbook) =~= s.update(i, (exchange, orderbook)));
    }
}

/// Filing under a key that is not stored appends a new entry.
proof fn lemma_upsert_miss(s: Seq<(Exchange, Orderbook)>, exchange: Exchange, orderbook: Orderbook)
    requires
        forall|j: int| 0 <= j < s.len() ==> (#[trigger] s[j]).0 != exchange,
    ensures
        upsert_model(s, exchange, orderbook) == s.push((exchange, orderbook)),
    decreases s.len(),
{
    if s.len() == 0 {
        assert(upsert_model(s, exchange, orderbook) =~= s.push((exchange, orderbook)));
    } else {
        lemma_upsert_miss(s.drop_first(), exchange, orderbook);
        assert(upsert_model(s, exchange, orderbook) =~= s.push((exchange, orderbook)));
    }
}

/// Replaying a newer snapshot for an exchange fully supersedes its prior
/// snapshot: storing `first` and then `second` under one exchange leaves
/// exactly the state that storing `second` alone leaves, so no level of the
/// superseded snapshot lingers in any later merge.
pub proof fn lemma_replay_supersedes(
    s: Seq<(Exchange, Orderbook)>,
    exchange: Exchange,
    first: Orderbook,
    second: Orderbook,
)
    ensures
        upsert_model(upsert_model(s, exchange, first), exchange, second) == upsert_model(
            s,
            exchange,
            second,
        ),
    decreases s.len(),
{
    if s.len() == 0 {
        assert(upsert_model(upsert_model(s, exchange, first), exchange, second) =~= upsert_model(
            s,
            exchange,
            second,
        ));
    } else if s[0].0 == exchange {
        assert((seq![(exchange, first)] + s.drop_first()).drop_first() =~= s.drop_first());
        assert(upsert_model(upsert_model(s, exchange, first), exchange, second) =~= upsert_model(
            s,
            exchange,
            second,
        ));
    } else {
        lemma_replay_supersedes(s.drop_first(), exchange, first, second);
        assert((seq![s[0]] + upsert_model(s.drop_first(), exchange, first)).drop_first()
            =~= upsert_model(s.drop_first(), exchange, first));
        assert(upsert_model(upsert_model(s, exchange, first), exchange, second) =~= upsert_model(
            s,
            exchange,
            second,
        ));
    }
}

} // verus!
