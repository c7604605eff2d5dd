use orderbook_aggregator::decimal::Decimal;
use orderbook_aggregator::decimal::SignedDecimal;
use orderbook_aggregator::order_book::Exchange;
use orderbook_aggregator::order_book::LevelSide;
use orderbook_aggregator::order_book::Orderbook;
use orderbook_aggregator::order_book::OrderbookLevel;

#[test]
fn asks_are_sorted() {
    let asks = vec![
        OrderbookLevel::ask(Decimal::new(12, 1), Decimal::new(10, 1), Exchange::Unknown),
        OrderbookLevel::ask(Decimal::new(11, 1), Decimal::new(10, 1), Exchange::Unknown),
        OrderbookLevel::ask(Decimal::new(9, 1), Decimal::new(1, 1), Exchange::Unknown),
        OrderbookLevel::ask(Decimal::new(9, 1), Decimal::new(100, 1), Exchange::Unknown),
    ];
    let asks = Orderbook::from_bids_asks(Vec::new(), asks).asks;
    let top_ask = asks[0];
    assert_eq!(top_ask.price, Decimal::new(9, 1));
    assert_eq!(top_ask.size, Decimal::new(100, 1));

    let second_ask = asks[1];
    assert_eq!(second_ask.price, Decimal::new(9, 1));
    assert_eq!(second_ask.size, Decimal::new(1, 1));
}

#[test]
fn bids_are_sorted() {
    let bids = vec![
        OrderbookLevel::bid(Decimal::new(11, 1), Decimal::new(10, 1), Exchange::Unknown),
        OrderbookLevel::bid(Decimal::new(11, 1), Decimal::new(20, 1), Exchange::Unknown),
        OrderbookLevel::bid(Decimal::new(8, 1), Decimal::new(10, 1), Exchange::Unknown),
        OrderbookLevel::bid(Decimal::new(12, 1), Decimal::new(30, 1), Exchange::Unknown),
    ];
    let bids = Orderbook::from_bids_asks(bids, Vec::new()).bids;
    let top_bid = bids[0];
    assert_eq!(top_bid.price, Decimal::new(12, 1));
    assert_eq!(top_bid.size, Decimal::new(30, 1));

    let second_bid = bids[1];
    assert_eq!(second_bid.price, Decimal::new(11, 1));
    assert_eq!(second_bid.size, Decimal::new(20, 1));
}

#[test]
fn empty_top_bid() {
    let orderbook = Orderbook::new();
    assert_eq!(orderbook.top_bid(), None);
}

#[test]
fn top_bid() {
    let orderbook = Orderbook::from_bids_asks(
        vec![OrderbookLevel::bid(Decimal::new(10, 1), Decimal::new(10, 1), Exchange::Unknown)],
        vec![],
    );
    assert!(orderbook.top_bid().is_some());
}

#[test]
fn empty_top_ask() {
    let orderbook = Orderbook::new();
    assert_eq!(orderbook.top_ask(), None);
}

#[test]
fn top_ask() {
    let orderbook = Orderbook::from_bids_asks(
        vec![],
        vec![OrderbookLevel::ask(Decimal::new(10, 1), Decimal::new(10, 1), Exchange::Unknown)],
    );
    assert!(orderbook.top_ask().is_some());
}

#[test]
fn empty_spread() {
    let orderbook = Orderbook::new();
    assert_eq!(orderbook.spread(), None);
}

#[test]
fn spread_is_exact() {
    let orderbook = Orderbook::from_bids_asks(
        vec![OrderbookLevel::bid(Decimal::new(83, 2), Decimal::new(10, 1), Exchange::Binance)],
        vec![OrderbookLevel::ask(Decimal::new(85, 2), Decimal::new(10, 1), Exchange::Bitstamp)],
    );
    assert_eq!(orderbook.spread(), Some(SignedDecimal::new(false, 2, 2)));
}

#[test]
fn spread_absent_without_asks() {
    let orderbook = Orderbook::from_bids_asks(
        vec![OrderbookLevel::bid(Decimal::new(83, 2), Decimal::new(10, 1), Exchange::Binance)],
        vec![],
    );
    assert_eq!(orderbook.spread(), None);
}

#[test]
fn spread_can_be_negative() {
    let orderbook = Orderbook::from_bids_asks(
        vec![OrderbookLevel::bid(Decimal::new(10, 1), Decimal::new(10, 1), Exchange::Binance)],
        vec![OrderbookLevel::ask(Decimal::new(9, 1), Decimal::new(10, 1), Exchange::Bitstamp)],
    );
    assert_eq!(orderbook.spread(), Some(SignedDecimal::new(true, 1, 1)));
}

#[test]
fn limit_caps_each_side_and_keeps_order() {
    let bids = vec![
        OrderbookLevel::bid(Decimal::new(13, 1), Decimal::new(10, 1), Exchange::Unknown),
        OrderbookLevel::bid(Decimal::new(12, 1), Decimal::new(10, 1), Exchange::Unknown),
        OrderbookLevel::bid(Decimal::new(11, 1), Decimal::new(10, 1), Exchange::Unknown),
    ];
    let asks = vec![
        OrderbookLevel::ask(Decimal::new(14, 1), Decimal::new(10, 1), Exchange::Unknown),
        OrderbookLevel::ask(Decimal::new(15, 1), Decimal::new(10, 1), Exchange::Unknown),
        OrderbookLevel::ask(Decimal::new(16, 1), Decimal::new(10, 1), Exchange::Unknown),
    ];
    let book = Orderbook::from_bids_asks(bids, asks);
    let capped = book.limit(2);
    assert_eq!(capped.bids.len(), 2);
    assert_eq!(capped.asks.len(), 2);
    assert_eq!(capped.bids[0], book.bids[0]);
    assert_eq!(capped.bids[1], book.bids[1]);
    assert_eq!(capped.asks[0], book.asks[0]);
    assert_eq!(capped.asks[1], book.asks[1]);

    let uncapped = book.limit(10);
    assert_eq!(uncapped.bids.len(), 3);
    assert_eq!(uncapped.asks.len(), 3);
    assert_eq!(uncapped.bids, book.bids);
    assert_eq!(uncapped.asks, book.asks);
}

#[test]
fn from_exchange_leaves_side_unknown() {
    let level = OrderbookLevel::from_exchange(
        Exchange::Binance,
        (Decimal::new(9, 1), Decimal::new(5, 0)),
    );
    assert_eq!(level.price, Decimal::new(9, 1));
    assert_eq!(level.size, Decimal::new(5, 0));
    assert_eq!(level.exchange, Exchange::Binance);
    assert_eq!(level.side, LevelSide::Unknown);
}

#[test]
fn bid_and_ask_record_their_side() {
    let bid = OrderbookLevel::bid(Decimal::new(9, 1), Decimal::new(5, 0), Exchange::Bitstamp);
    assert_eq!(bid.side, LevelSide::Bid);
    let ask = OrderbookLevel::ask(Decimal::new(9, 1), Decimal::new(5, 0), Exchange::Bitstamp);
    assert_eq!(ask.side, LevelSide::Ask);
}

#[test]
fn level_from_pair_is_unattributed() {
    let level = OrderbookLevel::from((Decimal::new(9, 1), Decimal::new(5, 0)));
    assert_eq!(level.price, Decimal::new(9, 1));
    assert_eq!(level.size, Decimal::new(5, 0));
    assert_eq!(level.exchange, Exchange::Unknown);
    assert_eq!(level.side, LevelSide::Unknown);
}
