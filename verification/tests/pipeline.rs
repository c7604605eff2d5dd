use orderbook_aggregator::aggregator::Aggregator;
use orderbook_aggregator::decimal::Decimal;
use orderbook_aggregator::order_book::Exchange;
use orderbook_aggregator::order_book::Orderbook;
use orderbook_aggregator::order_book::OrderbookLevel;
use orderbook_aggregator::order_book::OrderbookUpdateEvent;
use orderbook_aggregator::pipeline::FanoutCell;
use orderbook_aggregator::pipeline::on_event;

fn one_level_book(bid_price: Decimal, ask_price: Decimal, exchange: Exchange) -> Orderbook {
    Orderbook::from_bids_asks(
        vec![OrderbookLevel::bid(bid_price, Decimal::new(10, 1), exchange)],
        vec![OrderbookLevel::ask(ask_price, Decimal::new(10, 1), exchange)],
    )
}

#[test]
fn no_publish_until_two_exchanges() {
    let mut aggregator = Aggregator::new();
    let mut cell = FanoutCell::new();

    // Zero exchanges: nothing has ever been published.
    assert_eq!(cell.version, 0);

    // One exchange, even updated repeatedly: still nothing published.
    let book = one_level_book(Decimal::new(8, 1), Decimal::new(9, 1), Exchange::Binance);
    let published = on_event(
        &mut aggregator,
        &mut cell,
        OrderbookUpdateEvent::new(Exchange::Binance, book),
    );
    assert!(!published);
    assert_eq!(cell.version, 0);

    let book = one_level_book(Decimal::new(81, 2), Decimal::new(9, 1), Exchange::Binance);
    let published = on_event(
        &mut aggregator,
        &mut cell,
        OrderbookUpdateEvent::new(Exchange::Binance, book),
    );
    assert!(!published);
    assert_eq!(cell.version, 0);

    // A second exchange: the merge is published.
    let book = one_level_book(Decimal::new(82, 2), Decimal::new(88, 2), Exchange::Bitstamp);
    let published = on_event(
        &mut aggregator,
        &mut cell,
        OrderbookUpdateEvent::new(Exchange::Bitstamp, book),
    );
    assert!(published);
    assert_eq!(cell.version, 1);
}

#[test]
fn late_subscriber_reads_current_book_only() {
    let mut aggregator = Aggregator::new();
    let mut cell = FanoutCell::new();

    let first = one_level_book(Decimal::new(8, 1), Decimal::new(9, 1), Exchange::Binance);
    on_event(&mut aggregator, &mut cell, OrderbookUpdateEvent::new(Exchange::Binance, first));
    let second = one_level_book(Decimal::new(82, 2), Decimal::new(88, 2), Exchange::Bitstamp);
    on_event(&mut aggregator, &mut cell, OrderbookUpdateEvent::new(Exchange::Bitstamp, second));
    let third = one_level_book(Decimal::new(84, 2), Decimal::new(87, 2), Exchange::Binance);
    on_event(&mut aggregator, &mut cell, OrderbookUpdateEvent::new(Exchange::Binance, third));
    assert_eq!(cell.version, 2);

    // A reader attaching only now immediately observes the current merge,
    // not any historical intermediate one.
    let mut reader = cell.subscribe();
    let observed = cell.poll(&mut reader).expect("a book must be readable");
    assert_eq!(observed.bids[0].price, Decimal::new(84, 2));
    assert_eq!(observed.asks[0].price, Decimal::new(87, 2));

    // Nothing new was published, so a second poll yields nothing.
    assert!(cell.poll(&mut reader).is_none());
}

#[test]
fn slow_reader_coalesces_to_latest() {
    let mut aggregator = Aggregator::new();
    let mut cell = FanoutCell::new();
    let mut reader = cell.subscribe();

    let a = one_level_book(Decimal::new(8, 1), Decimal::new(9, 1), Exchange::Binance);
    on_event(&mut aggregator, &mut cell, OrderbookUpdateEvent::new(Exchange::Binance, a));
    assert!(cell.poll(&mut reader).is_none());

    let b = one_level_book(Decimal::new(82, 2), Decimal::new(89, 2), Exchange::Bitstamp);
    on_event(&mut aggregator, &mut cell, OrderbookUpdateEvent::new(Exchange::Bitstamp, b));
    let c = one_level_book(Decimal::new(83, 2), Decimal::new(88, 2), Exchange::Bitstamp);
    on_event(&mut aggregator, &mut cell, OrderbookUpdateEvent::new(Exchange::Bitstamp, c));
    assert_eq!(cell.version, 2);

    // The reader slept through two publishes; it sees only the latest.
    let observed = cell.poll(&mut reader).expect("a book must be readable");
    assert_eq!(observed.bids[0].price, Decimal::new(83, 2));
    assert_eq!(observed.asks[0].price, Decimal::new(88, 2));
    assert!(cell.poll(&mut reader).is_none());
}

#[test]
fn each_reader_has_its_own_cursor() {
    let mut aggregator = Aggregator::new();
    let mut cell = FanoutCell::new();
    let mut early = cell.subscribe();

    let a = one_level_book(Decimal::new(8, 1), Decimal::new(9, 1), Exchange::Binance);
    on_event(&mut aggregator, &mut cell, OrderbookUpdateEvent::new(Exchange::Binance, a));
    let b = one_level_book(Decimal::new(82, 2), Decimal::new(89, 2), Exchange::Bitstamp);
    on_event(&mut aggregator, &mut cell, OrderbookUpdateEvent::new(Exchange::Bitstamp, b));

    assert!(cell.poll(&mut early).is_some());
    assert!(cell.poll(&mut early).is_none());

    // A second reader is unaffected by the first one's progress.
    let mut late = cell.subscribe();
    assert!(cell.poll(&mut late).is_some());
}
