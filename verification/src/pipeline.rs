//! The aggregation step and the fan-out cell.
//!
//! One task owns the [`Aggregator`] and applies [`on_event`] to every
//! dequeued snapshot event; once at least two exchanges have reported, each
//! step publishes the merged book into a versioned [`FanoutCell`]. Readers
//! poll the cell with their own cursor: a poll observes only the most
//! recent value, so a slow reader skips intermediate books instead of
//! queueing them.

use vstd::prelude::*;

use crate::aggregator::Aggregator;
use crate::aggregator::DEPTH_LIMIT;
use crate::aggregator::all_asks;
use crate::aggregator::all_bids;
use crate::aggregator::is_ranked_asks;
use crate::aggregator::is_ranked_bids;
use crate::aggregator::upsert_model;
use crate::order_book::Orderbook;
use crate::order_book::OrderbookLevel;
use crate::order_book::OrderbookUpdateEvent;

verus! {

/// A single-slot, latest-value-wins broadcast cell: one writer, any number
/// of readers, each holding its own [`FanoutReader`] cursor.
#[derive(Debug)]
pub struct FanoutCell {
    /// How many books have been published; `0` before the first publish.
    pub version: u64,
    /// The most recently published book; empty before the first publish.
    pub book: Orderbook,
}

/// One reader's cursor over a [`FanoutCell`]: the version of the last book
/// it observed.
#[derive(Clone, Copy, Debug, PartialEq, Eq, Structural)]
pub struct FanoutReader {
    /// The cell version this reader last observed; `0` for none yet.
    pub seen: u64,
}

impl FanoutCell {
    /// The stored book is well formed.
    pub open spec fn wf(self) -> bool {
        self.book.wf()
    }

    /// A cell with nothing published yet.
    pub fn new() -> (cell: FanoutCell)
        ensures
            cell.version == 0,
            cell.book.bids@ =~= Seq::<OrderbookLevel>::empty(),
            cell.book.asks@ =~= Seq::<OrderbookLevel>::empty(),
            cell.wf(),
    {
        FanoutCell { version: 0, book: Orderbook::new() }
    }

    /// Replaces the stored book and bumps the version. Never waits on any
    /// reader; readers that missed intermediate books simply see this one.
    pub fn publish(&mut self, book: Orderbook)
        requires
            book.wf(),
            old(self).version < u64::MAX,
        ensures
            final(self).version == old(self).version + 1,
            final(self).book == book,
            final(self).wf(),
    {
        self.version = self.version + 1;
        self.book = book;
    }

    /// A fresh cursor. It has observed nothing, so its first poll returns
    /// the currently stored book whenever anything has ever been published.
    pub fn subscribe(&self) -> (reader: FanoutReader)
        ensures
            reader.seen == 0,
    {
        FanoutReader { seen: 0 }
    }

    /// One coalescing read: the current book exactly when it changed since
    /// this reader last observed it, and nothing otherwise. Either way the
    /// reader's cursor is now current.
    pub fn poll<'a>(&'a self, reader: &mut FanoutReader) -> (r: Option<&'a Orderbook>)
        ensures
            final(reader).seen == self.version,
            match r {
                Some(b) => self.version > old(reader).seen && *b == self.book,
                None => self.version <= old(reader).seen,
            },
    {
        let changed = self.version > reader.seen;
        reader.seen = self.version;
        if changed {
            Some(&self.book)
        } else {
            None
        }
    }
}

/// One step of the aggregation task, applied to each dequeued snapshot
/// event: store the snapshot, and publish the merged book into the cell
/// exactly when at least two exchanges have reported. Until then the cell
/// is left untouched, so no merge backed by fewer than two sources is ever
/// published.
pub fn on_event(
    aggregator: &mut Aggregator,
    cell: &mut FanoutCell,
    event: OrderbookUpdateEvent,
) -> (published: bool)
    requires
        old(aggregator).wf(),
        old(cell).wf(),
        event.orderbook.wf(),
        old(cell).version < u64::MAX,
    ensures
        final(aggregator).wf(),
        final(aggregator).orderbooks@ == upsert_model(
            old(aggregator).orderbooks@,
            event.exchange,
            event.orderbook,
        ),
        final(cell).wf(),
        published == (final(aggregator).orderbooks@.len() >= 2),
        !published ==> *final(cell) == *old(cell),
        published ==> final(cell).version == old(cell).version + 1 && is_ranked_bids(
            final(cell).book.bids@,
            all_bids(final(aggregator).orderbooks@),
            DEPTH_LIMIT as int,
        ) && is_ranked_asks(
            final(cell).book.asks@,
            all_asks(final(aggregator).orderbooks@),
            DEPTH_LIMIT as int,
        ),
{
    aggregator.push(event.exchange, event.orderbook);
    if aggregator.exchange_count() >= 2 {
        let merged = aggregator.aggregate();
        cell.publish(merged);
        true
    } else {
        false
    }
}

} // verus!
