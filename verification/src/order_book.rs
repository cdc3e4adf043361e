//! The order book: both sides of one instrument in price-time order, and the
//! log of the orders that have left them.

use crate::error::BookError;
use crate::ledger::{
    lemma_accepting, lemma_sequence_bound, lemma_sequence_bound_joined, sequence_bound, Ledger,
};
use crate::matching::lemma_after_match_wf;
use crate::order::{Order, OrderStatus, OrderType};
use crate::priority::{enter, ranks_before};
use crate::snapshot::Item;
use crate::state::{
    has_id, lemma_adding_wf, lemma_cancelling_wf, lemma_position_of,
    lemma_position_of_unique, of_kind, position_of, BookState,
};
use crate::trade::Trade;
use vstd::prelude::*;

verus! {

/// The book of one instrument, with the counters that number its orders and
/// its trades. Its sides and its log change only through the methods below,
/// which keep it in good order and at rest: whatever an order crosses is
/// settled before the method that took it in returns.
#[derive(Debug)]
pub struct OrderBook {
    pair: String,
    buy_orders: Vec<Order>,
    sell_orders: Vec<Order>,
    closed_orders: Vec<Order>,
    next_sequence: u64,
    next_trade: u64,
}

impl View for OrderBook {
    type V = BookState;

    closed spec fn view(&self) -> BookState {
        BookState {
            pair: self.pair@,
            bids: self.buy_orders@,
            asks: self.sell_orders@,
            closed: self.closed_orders@,
        }
    }
}

/// The index of the first order in `v` with this id.
fn find(v: &Vec<Order>, id: u128) -> (found: Option<usize>)
    ensures
        match found {
            Some(i) => i < v@.len() && i == position_of(v@, id),
            None => !has_id(v@, id),
        },
        found is Some <==> has_id(v@, id),
{
    let mut i: usize = 0;
    while i < v.len()
        invariant
            i <= v@.len(),
            forall|j: int| 0 <= j < i ==> (#[trigger] v@[j]).id != id,
        decreases v@.len() - i,
    {
        if v[i].id == id {
            proof {
                lemma_position_of_unique(v@, id, i as int);
                lemma_position_of(v@, id);
            }
            return Some(i);
        }
        i = i + 1;
    }
    None
}

/// The least sequence from `from` on that lies above every order in `v`,
/// unless it lies beyond the last sequence there is.
fn above(v: &Vec<Order>, from: u64) -> (bound: Option<u64>)
    ensures
        match bound {
            Some(b) => b >= from && b >= sequence_bound(v@) && (b == from || b == sequence_bound(
                v@,
            )),
            None => sequence_bound(v@) > u64::MAX,
        },
{
    let mut bound: u64 = from;
    let mut i: usize = 0;
    while i < v.len()
        invariant
            i <= v@.len(),
            bound >= from,
            bound >= sequence_bound(v@.take(i as int)),
            bound == from || bound == sequence_bound(v@.take(i as int)),
        decreases v@.len() - i,
    {
        let sequence: u64 = v[i].sequence;
        proof {
            assert(v@.take(i + 1).drop_last() =~= v@.take(i as int));
        }
        if sequence == u64::MAX {
            proof {
                lemma_sequence_bound(v@);
            }
            return None;
        }
        if sequence + 1 > bound {
            bound = sequence + 1;
        }
        i = i + 1;
    }
    assert(v@.take(v@.len() as int) =~= v@);
    Some(bound)
}

/// The orders in `v` that are of `side` and in `status`, in their order.
fn select(v: &Vec<Order>, side: OrderType, status: OrderStatus) -> (out: Vec<Order>)
    ensures
        out@ == v@.filter(of_kind(side, status)),
{
    let ghost test = of_kind(side, status);
    let mut out: Vec<Order> = Vec::new();
    let mut i: usize = 0;
    proof {
        v@.take(0).lemma_filter_len(test);
    }
    while i < v.len()
        invariant
            i <= v@.len(),
            test == of_kind(side, status),
            out@ == v@.take(i as int).filter(test),
        decreases v@.len() - i,
    {
        let order: Order = v[i];
        proof {
            v@.take(i as int).lemma_filter_push(order, test);
            assert(v@.take(i + 1) =~= v@.take(i as int).push(order));
        }
        if order.order_type == side && order.order_status == status {
            out.push(order);
        }
        i = i + 1;
    }
    assert(v@.take(v@.len() as int) =~= v@);
    out
}

impl OrderBook {
    /// Whether the book is in good order and at rest: both sides are in
    /// priority order, no id stands twice in it, and the best bid does not
    /// meet the best ask. Every book that the methods of this type hand out
    /// or leave behind is.
    pub open spec fn wf(&self) -> bool {
        self@.wf() && !self@.crosses()
    }

    /// The sequence that the next appended order gets.
    pub closed spec fn sequence_counter(&self) -> u64 {
        self.next_sequence
    }

    /// The number that the next trade gets.
    pub closed spec fn trade_counter(&self) -> u64 {
        self.next_trade
    }

    /// The book with its counters.
    pub open spec fn numbered(&self) -> Ledger {
        Ledger {
            book: self@,
            next_sequence: self.sequence_counter(),
            next_trade: self.trade_counter(),
        }
    }

    /// An empty book for `pair`.
    pub fn new(pair: String) -> (book: OrderBook)
        ensures
            book@ == BookState::empty(pair@),
            book.numbered() == Ledger::empty(pair@),
            book.wf(),
    {
        OrderBook {
            pair,
            buy_orders: Vec::new(),
            sell_orders: Vec::new(),
            closed_orders: Vec::new(),
            next_sequence: 0,
            next_trade: 0,
        }
    }

    /// Names the instrument; the orders and the counters stay as they are.
    pub fn set_pair(&mut self, pair: String)
        ensures
            final(self)@ == (BookState { pair: pair@, ..old(self)@ }),
            final(self).numbered() == (Ledger { book: final(self)@, ..old(self).numbered() }),
    {
        self.pair = pair;
    }

    /// The instrument.
    pub fn get_pair(&self) -> (pair: &String)
        ensures
            pair@ == self@.pair,
    {
        &self.pair
    }

    /// An empty book for the instrument that was named. A book whose
    /// instrument was never named is turned down.
    pub fn build(self) -> (result: Result<OrderBook, BookError>)
        ensures
            match result {
                Ok(book) => self@.pair.len() > 0 && book.numbered() == Ledger::empty(self@.pair)
                    && book.wf(),
                Err(e) => self@.pair.len() == 0 && e == BookError::InvalidArgument,
            },
    {
        if self.pair.as_str().is_empty() {
            Err(BookError::InvalidArgument)
        } else {
            Ok(OrderBook::new(self.pair))
        }
    }

    /// The resting buy orders, best first.
    pub fn get_buy_orders(&self) -> (orders: Vec<Order>)
        ensures
            orders@ == self@.bids,
    {
        self.buy_orders.clone()
    }

    /// The resting sell orders, best first.
    pub fn get_sell_orders(&self) -> (orders: Vec<Order>)
        ensures
            orders@ == self@.asks,
    {
        self.sell_orders.clone()
    }

    /// The buy order that is served first: none has a higher price, and none
    /// at its price has an earlier sequence.
    pub fn best_bid(&self) -> (best: Option<Order>)
        ensures
            match best {
                Some(order) => self@.bids.len() > 0 && order == self@.bids[0],
                None => self@.bids.len() == 0,
            },
            self.wf() && best is Some ==> forall|i: int|
                0 <= i < self@.bids.len() ==> ranks_before(
                    OrderType::Buy,
                    best->0,
                    #[trigger] self@.bids[i],
                ),
    {
        if self.buy_orders.len() > 0 {
            Some(self.buy_orders[0])
        } else {
            None
        }
    }

    /// The sell order that is served first: none has a lower price, and none
    /// at its price has an earlier sequence.
    pub fn best_ask(&self) -> (best: Option<Order>)
        ensures
            match best {
                Some(order) => self@.asks.len() > 0 && order == self@.asks[0],
                None => self@.asks.len() == 0,
            },
            self.wf() && best is Some ==> forall|i: int|
                0 <= i < self@.asks.len() ==> ranks_before(
                    OrderType::Sell,
                    best->0,
                    #[trigger] self@.asks[i],
                ),
    {
        if self.sell_orders.len() > 0 {
            Some(self.sell_orders[0])
        } else {
            None
        }
    }

    /// Whether the book holds an order with this id, resting or closed.
    pub fn knows(&self, id: u128) -> (r: bool)
        ensures
            r == self@.knows(id),
    {
        find(&self.buy_orders, id).is_some() || find(&self.sell_orders, id).is_some() || find(
            &self.closed_orders,
            id,
        ).is_some()
    }

    /// Lets `order` rest on the `target` side as it is, at the place that its
    /// price and its sequence give it, and settles nothing: the book may
    /// cross afterwards. An order of the other side, one that cannot rest,
    /// and one whose id the book already holds are turned down, in this
    /// order of precedence, and the book is then unchanged. The counters
    /// stay as they are.
    fn place(&mut self, target: OrderType, order: Order) -> (result: Result<(), BookError>)
        requires
            old(self)@.wf(),
        ensures
            final(self)@.wf(),
            final(self).numbered() == (Ledger { book: final(self)@, ..old(self).numbered() }),
            match old(self)@.refusal(target, order) {
                Some(e) => result == Err::<(), BookError>(e) && final(self)@ == old(self)@,
                None => result is Ok && final(self)@ == old(self)@.adding(order),
            },
    {
        if order.order_type != target {
            return Err(BookError::WrongSide { expected: target });
        }
        if !order.check_can_rest() {
            return Err(BookError::InvalidArgument);
        }
        if self.knows(order.id) {
            return Err(BookError::DuplicateOrder);
        }
        proof {
            lemma_adding_wf(self@, order);
        }
        match target {
            OrderType::Buy => {
                enter(&mut self.buy_orders, OrderType::Buy, order);
            },
            OrderType::Sell => {
                enter(&mut self.sell_orders, OrderType::Sell, order);
            },
        }
        Ok(())
    }

    /// Takes an order in on the `target` side: gives it the next sequence,
    /// which lies above that of every resting order, lets it rest at the
    /// place that its price gives it, and settles what it crosses. The order
    /// comes back as it then stands, with the trades it made, numbered from
    /// the trade counter. An order of the other side, one that is not active
    /// with a positive price and quantity, one for which a counter has run
    /// out, and one whose id the book already holds are refused, in this
    /// order of precedence, and the book is then unchanged.
    ///
    /// An order that is taken in stands behind every resting order of its
    /// side at the same or a better price. It is the taker of every trade,
    /// each at the limit price of a resting order of the other side, and the
    /// trades move what the order has lost. See `Ledger::serves`.
    pub fn insert(&mut self, target: OrderType, order: Order) -> (result: Result<
        (Order, Vec<Trade>),
        BookError,
    >)
        requires
            old(self).wf(),
        ensures
            final(self).wf(),
            old(self).numbered().appends(target, order, result, final(self).numbered()),
            result is Ok ==> old(self).numbered().serves(order, result->Ok_0.0, result->Ok_0.1@),
    {
        if order.order_type != target {
            return Err(BookError::WrongSide { expected: target });
        }
        if !(order.order_status == OrderStatus::Active && order.price > 0 && order.quantity > 0) {
            return Err(BookError::InvalidArgument);
        }
        let sequence: u64 = match self.raised() {
            Some(sequence) => sequence,
            None => {
                return Err(BookError::SequenceExhausted);
            },
        };
        if sequence == u64::MAX {
            return Err(BookError::SequenceExhausted);
        }
        let resting: u128 = self.resting_count();
        if self.next_trade as u128 + resting + 1 > u64::MAX as u128 {
            return Err(BookError::SequenceExhausted);
        }
        let placed = Order { sequence, ..order };
        match self.place(target, placed) {
            Ok(()) => {},
            Err(e) => {
                return Err(e);
            },
        }
        proof {
            lemma_accepting(old(self).numbered(), order);
        }
        let trades: Vec<Trade> = self.match_orders(self.next_trade);
        self.next_sequence = sequence + 1;
        self.next_trade = self.next_trade + trades.len() as u64;
        let answer: Order = match self.lookup(order.id) {
            Ok(found) => found,
            Err(_) => Order { quantity: 0, order_status: OrderStatus::Filled, ..placed },
        };
        Ok((answer, trades))
    }

    /// Takes a buy order in among the bids and settles what it crosses; see
    /// `insert`, of which this is the case of the buy side.
    pub fn append_buy_order(&mut self, order: Order) -> (result: Result<
        (Order, Vec<Trade>),
        BookError,
    >)
        requires
            old(self).wf(),
        ensures
            final(self).wf(),
            old(self).numbered().appends(OrderType::Buy, order, result, final(self).numbered()),
            result is Ok ==> old(self).numbered().serves(order, result->Ok_0.0, result->Ok_0.1@),
    {
        self.insert(OrderType::Buy, order)
    }

    /// Takes a sell order in among the asks and settles what it crosses; see
    /// `insert`, of which this is the case of the sell side.
    pub fn append_sell_order(&mut self, order: Order) -> (result: Result<
        (Order, Vec<Trade>),
        BookError,
    >)
        requires
            old(self).wf(),
        ensures
            final(self).wf(),
            old(self).numbered().appends(OrderType::Sell, order, result, final(self).numbered()),
            result is Ok ==> old(self).numbered().serves(order, result->Ok_0.0, result->Ok_0.1@),
    {
        self.insert(OrderType::Sell, order)
    }

    /// Cancels the resting order with this id: it leaves its side and is
    /// logged as cancelled, and the logged order is returned. When no such
    /// order rests the book is unchanged. The book cannot cross by it.
    pub fn cancel(&mut self, order_id: u128) -> (result: Result<Order, BookError>)
        requires
            old(self).wf(),
        ensures
            final(self).wf(),
            final(self)@ == old(self)@.cancelling(order_id),
            final(self).numbered() == (Ledger { book: final(self)@, ..old(self).numbered() }),
            match result {
                Ok(order) => old(self)@.rests(order_id) && order.id == order_id
                    && order.order_status == OrderStatus::Cancelled && order
                    == final(self)@.closed.last(),
                Err(e) => !old(self)@.rests(order_id) && e == BookError::NotFound,
            },
    {
        proof {
            lemma_cancelling_wf(self@, order_id);
            lemma_position_of(self@.bids, order_id);
            lemma_position_of(self@.asks, order_id);
        }
        let mut order: Order = match find(&self.buy_orders, order_id) {
            Some(i) => self.buy_orders.remove(i),
            None => match find(&self.sell_orders, order_id) {
                Some(i) => self.sell_orders.remove(i),
                None => {
                    return Err(BookError::NotFound);
                },
            },
        };
        let _ = order.cancel();
        self.closed_orders.push(order);
        Ok(order)
    }

    /// The sequence that the next order gets, unless it lies beyond the last
    /// sequence there is.
    fn raised(&self) -> (bound: Option<u64>)
        ensures
            match bound {
                Some(b) => b == self.numbered().raised_sequence(),
                None => self.numbered().raised_sequence() > u64::MAX,
            },
    {
        proof {
            lemma_sequence_bound_joined(self@.bids, self@.asks);
        }
        match above(&self.buy_orders, self.next_sequence) {
            Some(bound) => above(&self.sell_orders, bound),
            None => None,
        }
    }

    /// Runs the crossing pass: while the best bid meets the best ask, the
    /// two trade the smaller of their open quantities at the price of the one
    /// with the earlier sequence, and an order with nothing left is logged as
    /// filled. The trades come back in the order in which they were made,
    /// numbered from `first_trade`. Afterwards the book does not cross.
    fn match_orders(&mut self, first_trade: u64) -> (trades: Vec<Trade>)
        requires
            old(self)@.wf(),
            first_trade + old(self)@.bids.len() + old(self)@.asks.len() <= u64::MAX,
        ensures
            final(self)@.wf(),
            final(self)@ == old(self)@.settled(),
            final(self).numbered() == (Ledger { book: final(self)@, ..old(self).numbered() }),
            trades@ == old(self)@.settlement(first_trade as int),
            !final(self)@.crosses(),
    {
        let ghost start = self@;
        let mut trades: Vec<Trade> = Vec::new();
        let mut sequence: u64 = first_trade;
        while self.buy_orders.len() > 0 && self.sell_orders.len() > 0 && self.buy_orders[0].price
            >= self.sell_orders[0].price
            invariant
                self@.wf(),
                self.numbered() == (Ledger { book: self@, ..old(self).numbered() }),
                start.settled() == self@.settled(),
                start.settlement(first_trade as int) == trades@ + self@.settlement(sequence as int),
                sequence + self@.bids.len() + self@.asks.len() <= u64::MAX,
            decreases self@.bids.len() + self@.asks.len(),
        {
            proof {
                lemma_after_match_wf(self@);
            }
            let ghost before = self@;
            let mut bid: Order = self.buy_orders[0];
            let mut ask: Order = self.sell_orders[0];
            let quantity: i32 = if bid.quantity <= ask.quantity {
                bid.quantity
            } else {
                ask.quantity
            };
            let trade = if bid.sequence <= ask.sequence {
                Trade {
                    maker_order_id: bid.id,
                    taker_order_id: ask.id,
                    price: bid.price,
                    quantity,
                    sequence,
                }
            } else {
                Trade {
                    maker_order_id: ask.id,
                    taker_order_id: bid.id,
                    price: ask.price,
                    quantity,
                    sequence,
                }
            };
            // Neither reduction can be refused: both orders are live, and the
            // matched quantity is positive and no more than either has open.
            let _ = bid.reduce(quantity);
            let _ = ask.reduce(quantity);
            if bid.quantity == 0 {
                self.buy_orders.remove(0);
                self.closed_orders.push(bid);
            } else {
                self.buy_orders[0] = bid;
            }
            if ask.quantity == 0 {
                self.sell_orders.remove(0);
                self.closed_orders.push(ask);
            } else {
                self.sell_orders[0] = ask;
            }
            proof {
                assert(self@.closed =~= before.after_match().closed);
                assert(trades@.push(trade) + self@.settlement(sequence + 1) =~= trades@ + (seq![
                    trade,
                ] + self@.settlement(sequence + 1)));
            }
            trades.push(trade);
            sequence = sequence + 1;
        }
        trades
    }

    /// The resting order with this id.
    pub fn lookup(&self, order_id: u128) -> (result: Result<Order, BookError>)
        ensures
            match result {
                Ok(order) => self@.rests(order_id) && order == self@.resting_order(order_id),
                Err(e) => !self@.rests(order_id) && e == BookError::NotFound,
            },
    {
        match find(&self.buy_orders, order_id) {
            Some(i) => Ok(self.buy_orders[i]),
            None => match find(&self.sell_orders, order_id) {
                Some(i) => Ok(self.sell_orders[i]),
                None => Err(BookError::NotFound),
            },
        }
    }

    /// How many orders rest in the book.
    pub fn resting_count(&self) -> (count: u128)
        ensures
            count == self@.bids.len() + self@.asks.len(),
            count <= 2 * usize::MAX,
    {
        self.buy_orders.len() as u128 + self.sell_orders.len() as u128
    }

    /// All resting orders: the bids, then the asks, each best first.
    pub fn active_orders(&self) -> (orders: Vec<Order>)
        ensures
            orders@ == self@.resting(),
    {
        let mut orders: Vec<Order> = self.buy_orders.clone();
        let mut asks: Vec<Order> = self.sell_orders.clone();
        orders.append(&mut asks);
        orders
    }

    /// The log of filled and cancelled orders, in the order in which they closed.
    pub fn closed_orders(&self) -> (orders: Vec<Order>)
        ensures
            orders@ == self@.closed,
    {
        self.closed_orders.clone()
    }

    /// The buy orders in the log that were filled.
    pub fn get_filled_buy_orders(&self) -> (orders: Vec<Order>)
        ensures
            orders@ == self@.closed.filter(of_kind(OrderType::Buy, OrderStatus::Filled)),
    {
        select(&self.closed_orders, OrderType::Buy, OrderStatus::Filled)
    }

    /// The sell orders in the log that were filled.
    pub fn get_filled_sell_orders(&self) -> (orders: Vec<Order>)
        ensures
            orders@ == self@.closed.filter(of_kind(OrderType::Sell, OrderStatus::Filled)),
    {
        select(&self.closed_orders, OrderType::Sell, OrderStatus::Filled)
    }

    /// The resting buy orders that have not traded yet.
    pub fn get_active_buy_orders(&self) -> (orders: Vec<Order>)
        ensures
            orders@ == self@.bids.filter(of_kind(OrderType::Buy, OrderStatus::Active)),
    {
        select(&self.buy_orders, OrderType::Buy, OrderStatus::Active)
    }

    /// The resting sell orders that have not traded yet.
    pub fn get_active_sell_orders(&self) -> (orders: Vec<Order>)
        ensures
            orders@ == self@.asks.filter(of_kind(OrderType::Sell, OrderStatus::Active)),
    {
        select(&self.sell_orders, OrderType::Sell, OrderStatus::Active)
    }

    /// The resting orders that have not traded yet: buys, then sells.
    pub fn join_active_orders(&self) -> (orders: Vec<Order>)
        ensures
            orders@ == self@.bids.filter(of_kind(OrderType::Buy, OrderStatus::Active))
                + self@.asks.filter(of_kind(OrderType::Sell, OrderStatus::Active)),
    {
        let mut orders: Vec<Order> = self.get_active_buy_orders();
        let mut sells: Vec<Order> = self.get_active_sell_orders();
        orders.append(&mut sells);
        orders
    }

    /// The filled orders in the log: buys, then sells.
    pub fn join_filled_orders(&self) -> (orders: Vec<Order>)
        ensures
            orders@ == self@.closed.filter(of_kind(OrderType::Buy, OrderStatus::Filled))
                + self@.closed.filter(of_kind(OrderType::Sell, OrderStatus::Filled)),
    {
        let mut orders: Vec<Order> = self.get_filled_buy_orders();
        let mut sells: Vec<Order> = self.get_filled_sell_orders();
        orders.append(&mut sells);
        orders
    }

    /// What a store is to keep of the book: all resting orders and the log.
    pub fn snapshot(&self) -> (item: Item)
        ensures
            item.active_orders@ == self@.resting(),
            item.fulfilled_orders@ == self@.closed,
    {
        Item { active_orders: self.active_orders(), fulfilled_orders: self.closed_orders() }
    }

    /// Loads a snapshot: every stored resting order whose status is Active
    /// enters its side under the sequence it was stored with, and the stored
    /// log is put behind the book's own; no stored order of the log rests
    /// again, and a stored resting order in any other status is passed over.
    /// A snapshot with an active order that the book refuses, with an order
    /// in its log that is not closed, or with an id in its log that would
    /// then stand twice in the book, is malformed: the book is then
    /// unchanged, and so is one whose orders would leave the book crossed.
    /// The counters stay as they are.
    pub fn load(&mut self, item: &Item) -> (result: Result<(), BookError>)
        requires
            old(self).wf(),
        ensures
            final(self).wf(),
            final(self).numbered() == (Ledger { book: final(self)@, ..old(self).numbered() }),
            match old(self)@.loaded(item.active_orders@, item.fulfilled_orders@) {
                Some(book) => result is Ok && final(self)@ == book,
                None => result == Err::<(), BookError>(BookError::DeserializationError)
                    && final(self)@ == old(self)@,
            },
    {
        let mut next = OrderBook {
            pair: self.pair.clone(),
            buy_orders: self.buy_orders.clone(),
            sell_orders: self.sell_orders.clone(),
            closed_orders: self.closed_orders.clone(),
            next_sequence: self.next_sequence,
            next_trade: self.next_trade,
        };
        let ghost start = self@;
        let active = &item.active_orders;
        let mut i: usize = 0;
        assert(active@.skip(0) =~= active@);
        while i < active.len()
            invariant
                i <= active@.len(),
                next@.wf(),
                next.numbered() == (Ledger { book: next@, ..old(self).numbered() }),
                start.wf(),
                !start.crosses(),
                start == old(self)@,
                self@ == start,
                active == &item.active_orders,
                start.reloading(active@) == next@.reloading(active@.skip(i as int)),
            decreases active@.len() - i,
        {
            let order: Order = active[i];
            proof {
                assert(active@.skip(i as int).drop_first() =~= active@.skip(i + 1));
            }
            if order.order_status == OrderStatus::Active {
                match next.place(order.order_type, order) {
                    Ok(()) => {},
                    Err(_) => {
                        return Err(BookError::DeserializationError);
                    },
                }
            }
            i = i + 1;
        }
        let ghost reloaded = next@;
        let log = &item.fulfilled_orders;
        let mut j: usize = 0;
        assert(log@.skip(0) =~= log@);
        while j < log.len()
            invariant
                j <= log@.len(),
                next@.wf(),
                next.numbered() == (Ledger { book: next@, ..old(self).numbered() }),
                start.wf(),
                !start.crosses(),
                start == old(self)@,
                self@ == start,
                log == &item.fulfilled_orders,
                start.reloading(item.active_orders@) == Some(reloaded),
                reloaded.logging(log@) == next@.logging(log@.skip(j as int)),
            decreases log@.len() - j,
        {
            let order: Order = log[j];
            proof {
                assert(log@.skip(j as int).drop_first() =~= log@.skip(j + 1));
            }
            if !order.check_closed() || next.knows(order.id) {
                return Err(BookError::DeserializationError);
            }
            next.closed_orders.push(order);
            j = j + 1;
        }
        if next.buy_orders.len() > 0 && next.sell_orders.len() > 0 && next.buy_orders[0].price
            >= next.sell_orders[0].price {
            return Err(BookError::DeserializationError);
        }
        *self = next;
        Ok(())
    }

    /// The book to start from, given what the store answered when it was
    /// asked for the instrument's snapshot: an empty book when it holds none,
    /// the loaded book when it holds one, and no book when the store failed
    /// (its error is handed on) or the snapshot is malformed.
    pub fn restore(pair: String, stored: Result<Option<Item>, BookError>) -> (result: Result<
        OrderBook,
        BookError,
    >)
        ensures
            result is Ok ==> result->Ok_0.wf() && result->Ok_0.numbered() == (Ledger {
                book: result->Ok_0@,
                next_sequence: 0,
                next_trade: 0,
            }),
            match stored {
                Err(e) => result is Err && result->Err_0 == e,
                Ok(None) => result is Ok && result->Ok_0@ == BookState::empty(pair@),
                Ok(Some(item)) => match BookState::empty(pair@).loaded(
                    item.active_orders@,
                    item.fulfilled_orders@,
                ) {
                    Some(book) => result is Ok && result->Ok_0@ == book,
                    None => result is Err && result->Err_0 == BookError::DeserializationError,
                },
            },
    {
        let mut book = OrderBook::new(pair);
        match stored {
            Err(e) => Err(e),
            Ok(None) => Ok(book),
            Ok(Some(item)) => match book.load(&item) {
                Ok(()) => Ok(book),
                Err(e) => Err(e),
            },
        }
    }
}

impl Default for OrderBook {
    /// An empty book whose instrument is not named yet.
    fn default() -> (book: OrderBook)
        ensures
            book@ == BookState::empty(Seq::empty()),
            book.numbered() == Ledger::empty(Seq::empty()),
            book.wf(),
    {
        OrderBook::new(String::new())
    }
}

} // verus!
