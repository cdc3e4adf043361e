use match_engine::error::BookError;
use match_engine::order::{Order, OrderStatus, OrderType};

fn open_order(quantity: i32) -> Order {
    Order::with_id(7, quantity, 30, OrderType::Buy)
}

#[test]
fn new_order_should_have_active_status() {
    let order = Order::new(10, 30, OrderType::Buy);
    assert_eq!(order.order_status, OrderStatus::Active);
}

#[test]
fn new_order_keeps_what_it_was_given() {
    let order = Order::new(10, 30, OrderType::Sell);
    assert_eq!(order.quantity, 10);
    assert_eq!(order.price, 30);
    assert_eq!(order.order_type, OrderType::Sell);
    assert_eq!(order.sequence, 0);
}

#[test]
fn new_orders_carry_random_ids() {
    let first = Order::new(1, 1, OrderType::Buy);
    let second = Order::new(1, 1, OrderType::Buy);
    assert_eq!((first.id >> 76) & 0xf, 4);
    assert_eq!((first.id >> 62) & 0x3, 2);
    assert_eq!((second.id >> 76) & 0xf, 4);
    assert_eq!((second.id >> 62) & 0x3, 2);
    assert_ne!(first.id, second.id);
}

#[test]
fn with_id_builds_the_order_as_written() {
    let order = Order::with_id(42, 3, 9, OrderType::Sell);
    assert_eq!(
        order,
        Order {
            id: 42,
            price: 9,
            quantity: 3,
            order_type: OrderType::Sell,
            order_status: OrderStatus::Active,
            sequence: 0,
        }
    );
}

#[test]
fn reduce_takes_from_the_open_quantity() {
    let mut order = open_order(10);
    assert_eq!(order.reduce(3), Ok(()));
    assert_eq!(order.quantity, 7);
    assert_eq!(order.order_status, OrderStatus::PartiallyFilled);
    assert_eq!(order.reduce(7), Ok(()));
    assert_eq!(order.quantity, 0);
    assert_eq!(order.order_status, OrderStatus::Filled);
}

#[test]
fn reduce_by_all_fills_at_once() {
    let mut order = open_order(4);
    assert_eq!(order.reduce(4), Ok(()));
    assert_eq!(order.quantity, 0);
    assert_eq!(order.order_status, OrderStatus::Filled);
}

#[test]
fn reduce_by_more_than_is_open_is_refused() {
    let mut order = open_order(10);
    assert_eq!(order.reduce(11), Err(BookError::InvalidReduction));
    assert_eq!(order, open_order(10));
}

#[test]
fn reduce_by_nothing_or_less_is_refused() {
    let mut order = open_order(10);
    assert_eq!(order.reduce(0), Err(BookError::InvalidArgument));
    assert_eq!(order.reduce(-2), Err(BookError::InvalidArgument));
    assert_eq!(order, open_order(10));
}

#[test]
fn reduce_of_a_terminal_order_is_refused() {
    let mut filled = open_order(2);
    filled.reduce(2).unwrap();
    assert_eq!(filled.reduce(1), Err(BookError::AlreadyTerminal));
    assert_eq!(filled.order_status, OrderStatus::Filled);
    let mut cancelled = open_order(2);
    cancelled.cancel().unwrap();
    assert_eq!(cancelled.reduce(1), Err(BookError::AlreadyTerminal));
    assert_eq!(cancelled.quantity, 2);
    assert_eq!(cancelled.order_status, OrderStatus::Cancelled);
}

#[test]
fn cancel_withdraws_a_live_order() {
    let mut order = open_order(5);
    assert_eq!(order.cancel(), Ok(()));
    assert_eq!(order.order_status, OrderStatus::Cancelled);
    assert_eq!(order.quantity, 5);
    let mut partly = open_order(5);
    partly.reduce(2).unwrap();
    assert_eq!(partly.cancel(), Ok(()));
    assert_eq!(partly.order_status, OrderStatus::Cancelled);
    assert_eq!(partly.quantity, 3);
}

#[test]
fn cancel_of_a_terminal_order_is_refused() {
    let mut order = open_order(5);
    order.cancel().unwrap();
    assert_eq!(order.cancel(), Err(BookError::AlreadyTerminal));
    assert_eq!(order.order_status, OrderStatus::Cancelled);
    let mut filled = open_order(1);
    filled.reduce(1).unwrap();
    assert_eq!(filled.cancel(), Err(BookError::AlreadyTerminal));
    assert_eq!(filled.order_status, OrderStatus::Filled);
}

fn rank(status: OrderStatus) -> u8 {
    match status {
        OrderStatus::Active => 0,
        OrderStatus::PartiallyFilled => 1,
        OrderStatus::Filled => 2,
        OrderStatus::Cancelled => 2,
    }
}

#[test]
fn status_never_goes_back() {
    let mut order = open_order(6);
    let mut seen = vec![order.order_status];
    let _ = order.reduce(0);
    seen.push(order.order_status);
    let _ = order.reduce(2);
    seen.push(order.order_status);
    let _ = order.reduce(9);
    seen.push(order.order_status);
    let _ = order.reduce(4);
    seen.push(order.order_status);
    let _ = order.cancel();
    seen.push(order.order_status);
    let _ = order.reduce(1);
    seen.push(order.order_status);
    assert_eq!(
        seen,
        vec![
            OrderStatus::Active,
            OrderStatus::Active,
            OrderStatus::PartiallyFilled,
            OrderStatus::PartiallyFilled,
            OrderStatus::Filled,
            OrderStatus::Filled,
            OrderStatus::Filled,
        ]
    );
    for pair in seen.windows(2) {
        assert!(rank(pair[0]) <= rank(pair[1]));
    }
}

#[test]
fn a_cancelled_order_stays_cancelled() {
    let mut order = open_order(6);
    order.reduce(1).unwrap();
    order.cancel().unwrap();
    let _ = order.reduce(5);
    let _ = order.cancel();
    let _ = order.reduce(1);
    assert_eq!(order.order_status, OrderStatus::Cancelled);
    assert_eq!(order.quantity, 5);
}

#[test]
fn only_live_orders_with_positive_price_and_quantity_can_rest() {
    assert!(open_order(1).check_can_rest());
    assert!(!open_order(0).check_can_rest());
    assert!(!open_order(-1).check_can_rest());
    assert!(!Order::with_id(1, 1, 0, OrderType::Sell).check_can_rest());
    let mut partly = open_order(3);
    partly.reduce(1).unwrap();
    assert!(partly.check_can_rest());
    let mut cancelled = open_order(3);
    cancelled.cancel().unwrap();
    assert!(!cancelled.check_can_rest());
}

#[test]
fn only_terminal_orders_are_closed() {
    let mut filled = open_order(3);
    filled.reduce(3).unwrap();
    assert!(filled.check_closed());
    let mut cancelled = open_order(3);
    cancelled.cancel().unwrap();
    assert!(cancelled.check_closed());
    assert!(!open_order(3).check_closed());
    let odd = Order { order_status: OrderStatus::Filled, ..open_order(3) };
    assert!(!odd.check_closed());
}

#[test]
fn every_error_has_its_text() {
    assert_eq!(
        BookError::WrongSide { expected: OrderType::Buy }.message(),
        "Invalid order type, expected Buy order type but Sell provided"
    );
    assert_eq!(
        BookError::WrongSide { expected: OrderType::Sell }.message(),
        "Invalid order type, expected Sell order type but Buy provided"
    );
    assert_eq!(BookError::DuplicateOrder.message(), "An order with this id is already in the book");
    assert_eq!(BookError::NotFound.message(), "No resting order has this id");
    assert_eq!(BookError::AlreadyTerminal.message(), "The order is already filled or cancelled");
    assert_eq!(
        BookError::InvalidReduction.message(),
        "The reduction exceeds the remaining quantity"
    );
    assert_eq!(BookError::InvalidArgument.message(), "Price and quantity must be positive");
    assert_eq!(BookError::StorageError.message(), "The store could not be read or written");
    assert_eq!(BookError::DeserializationError.message(), "The stored snapshot is malformed");
    assert_eq!(
        BookError::PersistenceFailed.message(),
        "The change was applied but could not be stored"
    );
    assert_eq!(BookError::SequenceExhausted.message(), "The sequence counter is exhausted");
}

#[test]
fn a_side_is_read_from_its_word() {
    assert_eq!(OrderType::from_token("buy"), Ok(OrderType::Buy));
    assert_eq!(OrderType::from_token("sell"), Ok(OrderType::Sell));
    assert_eq!(OrderType::from_token("Sell"), Err(BookError::InvalidArgument));
    assert_eq!(OrderType::from_token("sale"), Err(BookError::InvalidArgument));
    assert_eq!(OrderType::from_token(""), Err(BookError::InvalidArgument));
}
