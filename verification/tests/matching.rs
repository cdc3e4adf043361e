use match_engine::order::{Order, OrderStatus, OrderType};
use match_engine::order_book::OrderBook;
use match_engine::trade::Trade;

fn take(book: &mut OrderBook, id: u128, side: OrderType, quantity: i32, price: i32) -> Vec<Trade> {
    let (_, trades) = book.insert(side, Order::with_id(id, quantity, price, side)).unwrap();
    trades
}

fn order(id: u128, side: OrderType, quantity: i32, price: i32, sequence: u64) -> Order {
    Order { sequence, ..Order::with_id(id, quantity, price, side) }
}

fn filled(order: Order) -> Order {
    Order { quantity: 0, order_status: OrderStatus::Filled, ..order }
}

fn traded(trades: &[Trade], id: u128) -> i32 {
    trades
        .iter()
        .filter(|t| t.maker_order_id == id || t.taker_order_id == id)
        .map(|t| t.quantity)
        .sum()
}

// Buy | Sell
//  5 | 4
//  4 | 3
//  3 | 9
#[test]
fn match_orders_test() {
    let mut order_book = OrderBook::new("BTC/ETH".to_string());

    let orders: [Order; 6] = [
        Order::new(1, 4, OrderType::Sell),
        Order::new(1, 3, OrderType::Sell),
        Order::new(1, 9, OrderType::Sell),
        //
        Order::new(1, 5, OrderType::Buy),
        Order::new(1, 4, OrderType::Buy),
        Order::new(1, 3, OrderType::Buy),
    ];

    for order in orders {
        if order.order_type == OrderType::Buy {
            order_book
                .append_buy_order(order)
                .expect("could not append buy order");
        } else {
            order_book
                .append_sell_order(order)
                .expect("could not append sell order");
        }
    }

    let filled_buy_orders: Vec<i32> = order_book
        .get_filled_buy_orders()
        .into_iter()
        .map(|o| o.price)
        .collect();
    let filled_sell_orders: Vec<i32> = order_book
        .get_filled_sell_orders()
        .into_iter()
        .map(|o| o.price)
        .collect();

    assert_eq!(filled_buy_orders, vec![5, 4]);
    assert_eq!(filled_sell_orders, vec![3, 4]);

    let active_sells: Vec<i32> =
        order_book.get_active_sell_orders().into_iter().map(|o| o.price).collect();
    let active_buys: Vec<i32> =
        order_book.get_active_buy_orders().into_iter().map(|o| o.price).collect();
    assert_eq!(active_sells, vec![9]);
    assert_eq!(active_buys, vec![3]);
}

#[test]
fn an_order_that_crosses_nothing_makes_no_trade() {
    let mut book = OrderBook::new("BTC/ETH".to_string());
    assert_eq!(take(&mut book, 1, OrderType::Buy, 2, 9), vec![]);
    assert_eq!(take(&mut book, 2, OrderType::Sell, 2, 10), vec![]);
    assert_eq!(take(&mut book, 3, OrderType::Buy, 1, 9), vec![]);
    assert_eq!(
        book.active_orders(),
        vec![
            order(1, OrderType::Buy, 2, 9, 0),
            order(3, OrderType::Buy, 1, 9, 2),
            order(2, OrderType::Sell, 2, 10, 1),
        ]
    );
    assert_eq!(book.closed_orders(), vec![]);
}

#[test]
fn the_resting_order_gives_its_price() {
    let mut bid_first = OrderBook::new("BTC/ETH".to_string());
    take(&mut bid_first, 1, OrderType::Buy, 5, 10);
    assert_eq!(
        take(&mut bid_first, 2, OrderType::Sell, 3, 9),
        vec![Trade { maker_order_id: 1, taker_order_id: 2, price: 10, quantity: 3, sequence: 0 }]
    );
    let mut ask_first = OrderBook::new("BTC/ETH".to_string());
    take(&mut ask_first, 2, OrderType::Sell, 3, 9);
    assert_eq!(
        take(&mut ask_first, 1, OrderType::Buy, 5, 10),
        vec![Trade { maker_order_id: 2, taker_order_id: 1, price: 9, quantity: 3, sequence: 0 }]
    );
}

#[test]
fn a_pass_matches_until_the_book_no_longer_crosses() {
    let mut book = OrderBook::new("BTC/ETH".to_string());
    take(&mut book, 1, OrderType::Sell, 2, 10);
    take(&mut book, 2, OrderType::Sell, 4, 11);
    take(&mut book, 3, OrderType::Sell, 5, 13);
    take(&mut book, 5, OrderType::Buy, 1, 8);
    let trades = take(&mut book, 4, OrderType::Buy, 7, 12);
    assert_eq!(
        trades,
        vec![
            Trade { maker_order_id: 1, taker_order_id: 4, price: 10, quantity: 2, sequence: 0 },
            Trade { maker_order_id: 2, taker_order_id: 4, price: 11, quantity: 4, sequence: 1 },
        ]
    );
    let left = Order {
        quantity: 1,
        order_status: OrderStatus::PartiallyFilled,
        ..order(4, OrderType::Buy, 7, 12, 4)
    };
    assert_eq!(book.get_buy_orders(), vec![left, order(5, OrderType::Buy, 1, 8, 3)]);
    assert_eq!(book.get_sell_orders(), vec![order(3, OrderType::Sell, 5, 13, 2)]);
    assert_eq!(
        book.closed_orders(),
        vec![
            filled(order(1, OrderType::Sell, 2, 10, 0)),
            filled(order(2, OrderType::Sell, 4, 11, 1)),
        ]
    );
    assert!(book.best_bid().unwrap().price < book.best_ask().unwrap().price);
}

#[test]
fn equal_quantities_fill_both_orders_bid_logged_first() {
    let mut book = OrderBook::new("BTC/ETH".to_string());
    take(&mut book, 1, OrderType::Sell, 3, 10);
    let trades = take(&mut book, 2, OrderType::Buy, 3, 10);
    assert_eq!(
        trades,
        vec![Trade { maker_order_id: 1, taker_order_id: 2, price: 10, quantity: 3, sequence: 0 }]
    );
    assert_eq!(book.active_orders(), vec![]);
    let closed: Vec<u128> = book.closed_orders().iter().map(|o| o.id).collect();
    assert_eq!(closed, vec![2, 1]);
    assert!(book.closed_orders().iter().all(|o| o.quantity == 0));
    assert!(book.closed_orders().iter().all(|o| o.order_status == OrderStatus::Filled));
}

#[test]
fn quantity_is_conserved_by_every_pass() {
    let flow = [
        (1, OrderType::Sell, 2, 10),
        (2, OrderType::Sell, 4, 10),
        (3, OrderType::Sell, 5, 11),
        (4, OrderType::Buy, 3, 12),
        (5, OrderType::Buy, 6, 11),
        (6, OrderType::Buy, 9, 9),
        (7, OrderType::Sell, 20, 9),
    ];
    let mut book = OrderBook::new("BTC/ETH".to_string());
    let mut all: Vec<Trade> = vec![];
    for (id, side, quantity, price) in flow {
        let before: Vec<Order> = book.active_orders();
        let (answer, trades) =
            book.insert(side, Order::with_id(id, quantity, price, side)).unwrap();
        let sum: i32 = trades.iter().map(|t| t.quantity).sum();
        assert!(sum <= quantity);
        assert_eq!(answer.quantity, quantity - sum);
        for t in &trades {
            assert!(t.quantity > 0);
            assert_eq!(t.taker_order_id, id);
        }
        for o in before {
            let left = match book.lookup(o.id) {
                Ok(found) => found.quantity,
                Err(_) => 0,
            };
            assert!(left >= 0);
            assert_eq!(traded(&trades, o.id), o.quantity - left);
        }
        all.extend(trades);
    }
    assert_eq!(all.len(), 5);
    assert_eq!(traded(&all, 1), 2);
    assert_eq!(traded(&all, 2), 4);
    assert_eq!(traded(&all, 3), 3);
    assert_eq!(traded(&all, 4), 3);
    assert_eq!(traded(&all, 5), 6);
    assert_eq!(traded(&all, 6), 9);
    assert_eq!(traded(&all, 7), 9);
    let between: i32 = all
        .iter()
        .filter(|t| t.maker_order_id == 2 && t.taker_order_id == 5)
        .map(|t| t.quantity)
        .sum();
    assert_eq!(between, 3);
}

#[test]
fn earlier_orders_at_a_price_match_first() {
    let mut book = OrderBook::new("BTC/ETH".to_string());
    take(&mut book, 1, OrderType::Buy, 2, 10);
    take(&mut book, 2, OrderType::Buy, 2, 10);
    let trades = take(&mut book, 3, OrderType::Sell, 3, 10);
    assert_eq!(
        trades,
        vec![
            Trade { maker_order_id: 1, taker_order_id: 3, price: 10, quantity: 2, sequence: 0 },
            Trade { maker_order_id: 2, taker_order_id: 3, price: 10, quantity: 1, sequence: 1 },
        ]
    );
    assert_eq!(book.best_bid().unwrap().id, 2);
    assert_eq!(book.best_bid().unwrap().quantity, 1);
}

#[test]
fn trades_are_numbered_on_from_order_to_order() {
    let mut book = OrderBook::new("BTC/ETH".to_string());
    take(&mut book, 1, OrderType::Buy, 1, 10);
    let first = take(&mut book, 2, OrderType::Sell, 1, 10);
    take(&mut book, 3, OrderType::Buy, 1, 10);
    let second = take(&mut book, 4, OrderType::Sell, 1, 10);
    assert_eq!(first.len(), 1);
    assert_eq!(first[0].sequence, 0);
    assert_eq!(
        second,
        vec![Trade { maker_order_id: 3, taker_order_id: 4, price: 10, quantity: 1, sequence: 1 }]
    );
    let (next, trades) = book.append_buy_order(Order::with_id(5, 1, 1, OrderType::Buy)).unwrap();
    assert_eq!(trades, vec![]);
    assert_eq!(next.sequence, 4);
}
