//! The matching engine: it owns the book of one instrument and changes it
//! only by taking orders in and by cancelling them. The book is at rest
//! between any two of its operations: it never rests crossed.

use crate::error::BookError;
use crate::ledger::Ledger;
use crate::order::{is_random_id, Order, OrderStatus, OrderType};
use crate::order_book::OrderBook;
use crate::state::quotes;
use crate::trade::{volume, Trade};
use vstd::prelude::*;

verus! {

/// The quantity of a command: the one it gives, and one when it gives none.
pub open spec fn quantity_or_one(quantity: Option<i32>) -> i32 {
    match quantity {
        Some(q) => q,
        None => 1,
    }
}

/// The engine of one instrument.
#[derive(Debug)]
pub struct MatchingEngine {
    book: OrderBook,
}

impl View for MatchingEngine {
    type V = Ledger;

    closed spec fn view(&self) -> Ledger {
        self.book.numbered()
    }
}

impl MatchingEngine {
    /// Whether the engine is in good order: its book is at rest. Every
    /// engine that the methods of this type hand out or leave behind is.
    pub open spec fn wf(&self) -> bool {
        self@.at_rest()
    }

    /// An engine with an empty book for `pair`.
    pub fn new(pair: String) -> (engine: MatchingEngine)
        ensures
            engine.wf(),
            engine@ == Ledger::empty(pair@),
    {
        MatchingEngine { book: OrderBook::new(pair) }
    }

    /// An engine that goes on from `book`, as after a reload.
    pub fn resume(book: OrderBook) -> (engine: MatchingEngine)
        requires
            book.wf(),
        ensures
            engine.wf(),
            engine@ == book.numbered(),
    {
        MatchingEngine { book }
    }

    /// The book as it stands.
    pub fn book(&self) -> (book: &OrderBook)
        ensures
            book.numbered() == self@,
            book@ == self@.book,
    {
        &self.book
    }

    /// Takes an order in on its own side; see `OrderBook::insert`. The order
    /// comes back as it then stands, with the trades it made; in each of
    /// them it is the taker, at the limit price of a resting order of the
    /// other side, and together they move no more than its quantity. An
    /// order that is refused leaves the engine unchanged.
    pub fn accept(&mut self, order: Order) -> (result: Result<(Order, Vec<Trade>), BookError>)
        requires
            old(self).wf(),
        ensures
            final(self).wf(),
            old(self)@.accepts(order, result, final(self)@),
            result is Ok ==> old(self)@.serves(order, result->Ok_0.0, result->Ok_0.1@),
            result is Ok ==> {
                &&& volume(result->Ok_0.1@) == order.quantity - result->Ok_0.0.quantity
                &&& 0 <= result->Ok_0.0.quantity <= order.quantity
                &&& forall|i: int|
                    0 <= i < result->Ok_0.1@.len() ==> {
                        let trade = #[trigger] result->Ok_0.1@[i];
                        &&& trade.taker_order_id == order.id
                        &&& trade.sequence == old(self)@.next_trade + i
                        &&& quotes(
                            old(self)@.book.facing(order.order_type),
                            trade.maker_order_id,
                            trade.price,
                        )
                    }
            },
    {
        self.book.insert(order.order_type, order)
    }

    /// Makes an order under a fresh random id and takes it in; see `accept`.
    /// A price or a quantity that is not positive is refused before anything
    /// else is looked at.
    pub fn submit(&mut self, side: OrderType, price: i32, quantity: i32) -> (result: Result<
        (Order, Vec<Trade>),
        BookError,
    >)
        requires
            old(self).wf(),
        ensures
            final(self).wf(),
            price <= 0 || quantity <= 0 <==> result == Err::<(Order, Vec<Trade>), BookError>(
                BookError::InvalidArgument,
            ),
            exists|id: u128| #[trigger]
                is_random_id(id) && old(self)@.accepts(
                    Order {
                        id,
                        price,
                        quantity,
                        order_type: side,
                        order_status: OrderStatus::Active,
                        sequence: 0,
                    },
                    result,
                    final(self)@,
                ),
            result is Ok ==> {
                &&& volume(result->Ok_0.1@) == quantity - result->Ok_0.0.quantity
                &&& 0 <= result->Ok_0.0.quantity <= quantity
                &&& forall|i: int|
                    0 <= i < result->Ok_0.1@.len() ==> {
                        let trade = #[trigger] result->Ok_0.1@[i];
                        &&& trade.taker_order_id == result->Ok_0.0.id
                        &&& quotes(old(self)@.book.facing(side), trade.maker_order_id, trade.price)
                    }
            },
    {
        let order: Order = Order::new(quantity, price, side);
        self.accept(order)
    }

    /// Submits an order as a command names it: the side by its word, and a
    /// quantity of one when none is given. A word that names no side is
    /// refused before anything else is looked at; for the rest see `submit`.
    pub fn submit_command(&mut self, side: &str, price: i32, quantity: Option<i32>) -> (result:
        Result<(Order, Vec<Trade>), BookError>)
        requires
            old(self).wf(),
        ensures
            final(self).wf(),
            OrderType::named(side@) is None || price <= 0 || quantity_or_one(quantity) <= 0
                <==> result == Err::<(Order, Vec<Trade>), BookError>(BookError::InvalidArgument),
            OrderType::named(side@) is None ==> final(self)@ == old(self)@,
            OrderType::named(side@) is Some ==> exists|id: u128| #[trigger]
                is_random_id(id) && old(self)@.accepts(
                    Order {
                        id,
                        price,
                        quantity: quantity_or_one(quantity),
                        order_type: OrderType::named(side@)->0,
                        order_status: OrderStatus::Active,
                        sequence: 0,
                    },
                    result,
                    final(self)@,
                ),
    {
        let side: OrderType = match OrderType::from_token(side) {
            Ok(side) => side,
            Err(e) => {
                return Err(e);
            },
        };
        let quantity: i32 = match quantity {
            Some(q) => q,
            None => 1,
        };
        self.submit(side, price, quantity)
    }

    /// Cancels the resting order with this id; see `OrderBook::cancel`. The
    /// book cannot cross by it.
    pub fn cancel(&mut self, order_id: u128) -> (result: Result<Order, BookError>)
        requires
            old(self).wf(),
        ensures
            final(self).wf(),
            final(self)@ == (Ledger { book: old(self)@.book.cancelling(order_id), ..old(self)@ }),
            match result {
                Ok(order) => old(self)@.book.rests(order_id) && order
                    == old(self)@.book.resting_order(order_id).withdrawn(),
                Err(e) => !old(self)@.book.rests(order_id) && e == BookError::NotFound
                    && final(self)@ == old(self)@,
            },
    {
        self.book.cancel(order_id)
    }
}

/// What the caller is told once the store has answered the write that
/// follows a change: the outcome of the change when it was stored, and that
/// persistence failed when it was not. The change itself stands either way.
pub fn acknowledge<T>(outcome: T, write: Result<(), BookError>) -> (result: Result<T, BookError>)
    ensures
        write is Ok ==> result == Ok::<T, BookError>(outcome),
        write is Err ==> result == Err::<T, BookError>(BookError::PersistenceFailed),
{
    match write {
        Ok(()) => Ok(outcome),
        Err(_) => Err(BookError::PersistenceFailed),
    }
}

} // verus!
