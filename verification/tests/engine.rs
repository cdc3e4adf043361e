use match_engine::engine::{acknowledge, MatchingEngine};
use match_engine::error::BookError;
use match_engine::order::{Order, OrderStatus, OrderType};
use match_engine::order_book::OrderBook;
use match_engine::snapshot::Item;
use match_engine::trade::Trade;

fn engine() -> MatchingEngine {
    MatchingEngine::new("BTC/ETH".to_string())
}

fn prices(orders: Vec<Order>) -> Vec<i32> {
    orders.into_iter().map(|o| o.price).collect()
}

// Buy | Sell
//  5 | 4
//  4 | 3
//  3 | 9
#[test]
fn mod_match_orders_test() {
    let mut order_book_builder = OrderBook::default();
    order_book_builder.set_pair("BTC/ETH".to_string());

    let mut order_book = order_book_builder.build().unwrap();

    let orders: [Order; 6] = [
        Order::new(1, 4, OrderType::Sell),
        Order::new(1, 3, OrderType::Sell),
        Order::new(1, 9, OrderType::Sell),
        //
        Order::new(1, 5, OrderType::Buy),
        Order::new(1, 4, OrderType::Buy),
        Order::new(1, 3, OrderType::Buy),
    ];

    for order in orders {
        if order.order_type == OrderType::Buy {
            order_book
                .append_buy_order(order)
                .expect("could not append buy order");
        } else {
            order_book
                .append_sell_order(order)
                .expect("could not append sell order");
        }
    }

    let filled_buy_orders: Vec<i32> = order_book
        .get_filled_buy_orders()
        .into_iter()
        .map(|o| o.price)
        .collect();
    let filled_sell_orders: Vec<i32> = order_book
        .get_filled_sell_orders()
        .into_iter()
        .map(|o| o.price)
        .collect();

    assert_eq!(filled_buy_orders, vec![5, 4]);
    assert_eq!(filled_sell_orders, vec![3, 4]);
}

#[test]
fn asks_are_makers_at_the_lower_prices_first() {
    let mut engine = engine();
    engine.submit(OrderType::Sell, 4, 1).unwrap();
    engine.submit(OrderType::Sell, 3, 1).unwrap();
    engine.submit(OrderType::Sell, 9, 1).unwrap();
    let (first, first_trades) = engine.submit(OrderType::Buy, 5, 1).unwrap();
    let (second, second_trades) = engine.submit(OrderType::Buy, 4, 1).unwrap();
    let (third, third_trades) = engine.submit(OrderType::Buy, 3, 1).unwrap();

    assert_eq!(first.order_status, OrderStatus::Filled);
    assert_eq!(second.order_status, OrderStatus::Filled);
    assert_eq!(third.order_status, OrderStatus::Active);
    assert_eq!(first_trades.len(), 1);
    assert_eq!(first_trades[0].price, 3);
    assert_eq!(first_trades[0].taker_order_id, first.id);
    assert_eq!(second_trades.len(), 1);
    assert_eq!(second_trades[0].price, 4);
    assert_eq!(third_trades, vec![]);

    assert_eq!(prices(engine.book().get_filled_buy_orders()), vec![5, 4]);
    assert_eq!(prices(engine.book().get_filled_sell_orders()), vec![3, 4]);
    assert_eq!(prices(engine.book().get_sell_orders()), vec![9]);
    assert_eq!(engine.book().get_buy_orders(), vec![third]);
}

#[test]
fn a_resting_buy_is_maker_of_a_crossing_sell() {
    let mut engine = engine();
    let (buy, none) = engine.submit(OrderType::Buy, 10, 5).unwrap();
    assert_eq!(none, vec![]);
    assert_eq!(buy.sequence, 0);
    let (sell, trades) = engine.submit(OrderType::Sell, 9, 3).unwrap();
    assert_eq!(
        trades,
        vec![Trade {
            maker_order_id: buy.id,
            taker_order_id: sell.id,
            price: 10,
            quantity: 3,
            sequence: 0,
        }]
    );
    assert_eq!(sell.order_status, OrderStatus::Filled);
    assert_eq!(sell.quantity, 0);
    assert_eq!(sell.sequence, 1);
    let resting = engine.book().best_bid().unwrap();
    assert_eq!(resting.id, buy.id);
    assert_eq!(resting.order_status, OrderStatus::PartiallyFilled);
    assert_eq!(resting.quantity, 2);
    assert_eq!(engine.book().best_ask(), None);
    assert_eq!(engine.book().closed_orders(), vec![sell]);
}

#[test]
fn the_first_of_two_equal_bids_is_consumed_first() {
    let mut engine = engine();
    let (a, _) = engine.submit(OrderType::Buy, 10, 2).unwrap();
    let (b, _) = engine.submit(OrderType::Buy, 10, 2).unwrap();
    assert_eq!(engine.book().best_bid(), Some(a));
    assert_eq!(engine.book().get_buy_orders(), vec![a, b]);

    let (sell, trades) = engine.submit(OrderType::Sell, 10, 3).unwrap();
    assert_eq!(trades.len(), 2);
    assert_eq!((trades[0].maker_order_id, trades[0].quantity), (a.id, 2));
    assert_eq!((trades[1].maker_order_id, trades[1].quantity), (b.id, 1));
    assert_eq!(sell.order_status, OrderStatus::Filled);
    let left = engine.book().best_bid().unwrap();
    assert_eq!(left.id, b.id);
    assert_eq!(left.quantity, 1);
    assert_eq!(left.order_status, OrderStatus::PartiallyFilled);
    assert_eq!(engine.book().closed_orders()[0].id, a.id);
}

#[test]
fn an_order_that_is_not_filled_rests_with_what_is_left() {
    let mut engine = engine();
    engine.accept(Order::with_id(1, 2, 10, OrderType::Sell)).unwrap();
    engine.accept(Order::with_id(2, 2, 11, OrderType::Sell)).unwrap();
    let (answer, trades) = engine.accept(Order::with_id(3, 7, 11, OrderType::Buy)).unwrap();
    assert_eq!(
        answer,
        Order {
            id: 3,
            price: 11,
            quantity: 3,
            order_type: OrderType::Buy,
            order_status: OrderStatus::PartiallyFilled,
            sequence: 2,
        }
    );
    assert_eq!(
        trades,
        vec![
            Trade { maker_order_id: 1, taker_order_id: 3, price: 10, quantity: 2, sequence: 0 },
            Trade { maker_order_id: 2, taker_order_id: 3, price: 11, quantity: 2, sequence: 1 },
        ]
    );
    assert_eq!(engine.book().lookup(3), Ok(answer));
    let total: i32 = trades.iter().map(|t| t.quantity).sum();
    assert_eq!(total, 7 - answer.quantity);
    let (_, later) = engine.accept(Order::with_id(4, 1, 11, OrderType::Sell)).unwrap();
    assert_eq!(
        later,
        vec![Trade { maker_order_id: 3, taker_order_id: 4, price: 11, quantity: 1, sequence: 2 }]
    );
}

#[test]
fn the_sequence_is_assigned_by_the_engine() {
    let mut engine = engine();
    let stamped = Order { sequence: 99, ..Order::with_id(1, 1, 10, OrderType::Buy) };
    let (first, _) = engine.accept(stamped).unwrap();
    let (second, _) = engine.accept(Order::with_id(2, 1, 10, OrderType::Buy)).unwrap();
    assert_eq!(first.sequence, 0);
    assert_eq!(second.sequence, 1);
    assert_eq!(engine.book().get_buy_orders(), vec![first, second]);
}

#[test]
fn a_price_or_quantity_that_is_not_positive_is_refused() {
    let mut engine = engine();
    engine.submit(OrderType::Buy, 10, 1).unwrap();
    let before = engine.book().active_orders();
    assert_eq!(engine.submit(OrderType::Sell, 0, 1), Err(BookError::InvalidArgument));
    assert_eq!(engine.submit(OrderType::Sell, -5, 1), Err(BookError::InvalidArgument));
    assert_eq!(engine.submit(OrderType::Sell, 5, 0), Err(BookError::InvalidArgument));
    assert_eq!(engine.submit(OrderType::Buy, 5, -1), Err(BookError::InvalidArgument));
    assert_eq!(engine.book().active_orders(), before);
    assert_eq!(engine.book().closed_orders(), vec![]);
    let (next, _) = engine.submit(OrderType::Buy, 9, 1).unwrap();
    assert_eq!(next.sequence, 1);
}

#[test]
fn an_order_that_is_not_fresh_is_refused() {
    let mut engine = engine();
    let mut used = Order::with_id(1, 4, 10, OrderType::Buy);
    used.reduce(1).unwrap();
    assert_eq!(engine.accept(used), Err(BookError::InvalidArgument));
    engine.accept(Order::with_id(1, 4, 10, OrderType::Buy)).unwrap();
    assert_eq!(
        engine.accept(Order::with_id(1, 2, 20, OrderType::Sell)),
        Err(BookError::DuplicateOrder)
    );
    assert_eq!(engine.book().resting_count(), 1);
}

#[test]
fn cancel_through_the_engine() {
    let mut engine = engine();
    let (buy, _) = engine.submit(OrderType::Buy, 10, 2).unwrap();
    assert_eq!(engine.cancel(buy.id + 1), Err(BookError::NotFound));
    assert_eq!(engine.book().active_orders(), vec![buy]);
    let cancelled = engine.cancel(buy.id).unwrap();
    assert_eq!(cancelled, Order { order_status: OrderStatus::Cancelled, ..buy });
    assert_eq!(engine.book().active_orders(), vec![]);
    assert_eq!(engine.book().closed_orders(), vec![cancelled]);
    assert_eq!(engine.cancel(buy.id), Err(BookError::NotFound));
    let (_, trades) = engine.submit(OrderType::Sell, 9, 1).unwrap();
    assert_eq!(trades, vec![]);
}

#[test]
fn the_book_never_rests_crossed() {
    let mut engine = engine();
    let flow = [
        (OrderType::Buy, 10, 3),
        (OrderType::Sell, 12, 2),
        (OrderType::Sell, 10, 1),
        (OrderType::Buy, 13, 4),
        (OrderType::Sell, 9, 9),
        (OrderType::Buy, 9, 2),
        (OrderType::Buy, 11, 1),
        (OrderType::Sell, 11, 5),
        (OrderType::Buy, 20, 20),
        (OrderType::Sell, 1, 7),
    ];
    let mut first_resting: Option<u128> = None;
    for (n, (side, price, quantity)) in flow.into_iter().enumerate() {
        let (order, trades) = engine.submit(side, price, quantity).unwrap();
        let total: i32 = trades.iter().map(|t| t.quantity).sum();
        assert!(total <= quantity);
        assert_eq!(total, quantity - order.quantity);
        for t in &trades {
            assert_eq!(t.taker_order_id, order.id);
        }
        if let (Some(bid), Some(ask)) = (engine.book().best_bid(), engine.book().best_ask()) {
            assert!(bid.price < ask.price);
        }
        if n == 4 {
            first_resting = engine.book().best_ask().map(|o| o.id);
        }
        if n == 6 {
            if let Some(id) = first_resting {
                let _ = engine.cancel(id);
            }
        }
        if let (Some(bid), Some(ask)) = (engine.book().best_bid(), engine.book().best_ask()) {
            assert!(bid.price < ask.price);
        }
    }
}

#[test]
fn resume_goes_on_from_a_loaded_book() {
    let item = Item {
        active_orders: vec![
            Order { sequence: 4, ..Order::with_id(1, 2, 10, OrderType::Buy) },
            Order { sequence: 7, ..Order::with_id(2, 1, 11, OrderType::Sell) },
            Order { sequence: 2, ..Order::with_id(3, 1, 15, OrderType::Sell) },
        ],
        fulfilled_orders: vec![],
    };
    let book = OrderBook::restore("BTC/ETH".to_string(), Ok(Some(item))).unwrap();
    let mut engine = MatchingEngine::resume(book);
    assert_eq!(engine.book().resting_count(), 3);
    let (next, made) = engine.submit(OrderType::Sell, 10, 1).unwrap();
    assert_eq!(next.sequence, 8);
    assert_eq!(
        made,
        vec![Trade {
            maker_order_id: 1,
            taker_order_id: next.id,
            price: 10,
            quantity: 1,
            sequence: 0,
        }]
    );

    let fresh = MatchingEngine::resume(OrderBook::new("BTC/ETH".to_string()));
    assert_eq!(fresh.book().resting_count(), 0);
}

#[test]
fn accept_fails_when_no_sequence_is_left() {
    let item = Item {
        active_orders: vec![Order {
            sequence: u64::MAX - 1,
            ..Order::with_id(1, 2, 10, OrderType::Buy)
        }],
        fulfilled_orders: vec![],
    };
    let book = OrderBook::restore("BTC/ETH".to_string(), Ok(Some(item))).unwrap();
    let mut engine = MatchingEngine::resume(book);
    assert_eq!(engine.submit(OrderType::Buy, 5, 1), Err(BookError::SequenceExhausted));
    assert_eq!(engine.book().resting_count(), 1);
}

#[test]
fn a_failed_write_is_reported_as_persistence_failed() {
    assert_eq!(acknowledge(5, Ok(())), Ok(5));
    assert_eq!(acknowledge(5, Err(BookError::StorageError)), Err(BookError::PersistenceFailed));
    let mut engine = engine();
    let outcome = engine.submit(OrderType::Buy, 10, 1).unwrap();
    let told = acknowledge(outcome, Err(BookError::StorageError));
    assert_eq!(told, Err(BookError::PersistenceFailed));
    assert_eq!(engine.book().resting_count(), 1);
}

#[test]
fn a_command_names_the_side_and_may_leave_out_the_quantity() {
    let mut engine = engine();
    let (sell, _) = engine.submit_command("sell", 10, None).unwrap();
    assert_eq!(sell.order_type, OrderType::Sell);
    assert_eq!(sell.quantity, 1);
    assert_eq!(sell.price, 10);
    let (buy, trades) = engine.submit_command("buy", 10, Some(4)).unwrap();
    assert_eq!(buy.order_type, OrderType::Buy);
    assert_eq!(buy.quantity, 3);
    assert_eq!(trades.len(), 1);
    assert_eq!(trades[0].maker_order_id, sell.id);
}

#[test]
fn a_sell_is_never_taken_for_a_buy() {
    let mut engine = engine();
    assert_eq!(engine.submit_command("sel", 10, Some(1)), Err(BookError::InvalidArgument));
    assert_eq!(engine.submit_command("SELL", 10, Some(1)), Err(BookError::InvalidArgument));
    assert_eq!(engine.submit_command("sell", 10, Some(0)), Err(BookError::InvalidArgument));
    assert_eq!(engine.submit_command("buy", -1, None), Err(BookError::InvalidArgument));
    assert_eq!(engine.book().resting_count(), 0);

    let mut book = OrderBook::new("BTC/ETH".to_string());
    let sell = Order::new(1, 8, OrderType::Sell);
    assert_eq!(
        book.append_buy_order(sell),
        Err(BookError::WrongSide { expected: OrderType::Buy })
    );
    assert_eq!(book.get_buy_orders(), vec![]);
    assert_eq!(book.get_sell_orders(), vec![]);
}
