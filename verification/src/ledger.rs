//! The book together with its two counters: the sequence that the next order
//! gets and the number that the next trade gets. Here stands what it means
//! to take an order in, and what holds when that is done.

use crate::error::BookError;
use crate::matching::{
    lemma_incoming_takes, lemma_latest_never_makes, lemma_resting_order_at, lemma_settled,
    lemma_settled_tracks, lemma_settlement_numbered, lemma_settlement_positive,
};
use crate::order::{Order, OrderStatus, OrderType};
use crate::priority::{insert_position, lemma_insert_position, no_worse};
use crate::state::{lemma_adding_wf, quotes, sequenced_below, BookState};
use crate::trade::{traded, volume, Trade};
use vstd::prelude::*;

verus! {

/// The least bound that lies above every sequence in `s`.
pub open spec fn sequence_bound(s: Seq<Order>) -> int
    decreases s.len(),
{
    if s.len() == 0 {
        0
    } else if s.last().sequence + 1 > sequence_bound(s.drop_last()) {
        s.last().sequence + 1
    } else {
        sequence_bound(s.drop_last())
    }
}

/// `sequence_bound` lies above every sequence, and is one of them plus one
/// unless there is none.
pub proof fn lemma_sequence_bound(s: Seq<Order>)
    ensures
        sequenced_below(s, sequence_bound(s)),
        0 <= sequence_bound(s) <= u64::MAX + 1,
        s.len() == 0 ==> sequence_bound(s) == 0,
        s.len() > 0 ==> exists|i: int|
            0 <= i < s.len() && (#[trigger] s[i]).sequence + 1 == sequence_bound(s),
    decreases s.len(),
{
    if s.len() > 0 {
        let front = s.drop_last();
        lemma_sequence_bound(front);
        assert forall|i: int| 0 <= i < s.len() implies (#[trigger] s[i]).sequence < sequence_bound(
            s,
        ) by {
            if i < front.len() {
                assert(front[i] == s[i]);
            }
        }
    }
}

/// The bound of two runs of orders is the greater of their bounds.
pub proof fn lemma_sequence_bound_joined(a: Seq<Order>, b: Seq<Order>)
    ensures
        sequence_bound(a + b) == if sequence_bound(a) >= sequence_bound(b) {
            sequence_bound(a)
        } else {
            sequence_bound(b)
        },
    decreases b.len(),
{
    lemma_sequence_bound(a);
    if b.len() == 0 {
    } else {
        lemma_sequence_bound_joined(a, b.drop_last());
        assert((a + b).drop_last() =~= a + b.drop_last());
    }
}

/// A book and its counters.
pub struct Ledger {
    /// The book.
    pub book: BookState,
    /// The sequence that the next order gets.
    pub next_sequence: u64,
    /// The number that the next trade gets.
    pub next_trade: u64,
}

impl Ledger {
    /// A book for `pair` that holds nothing and has numbered nothing yet.
    pub open spec fn empty(pair: Seq<char>) -> Ledger {
        Ledger { book: BookState::empty(pair), next_sequence: 0, next_trade: 0 }
    }

    /// The book is at rest: in good order, and the best bid does not meet
    /// the best ask.
    pub open spec fn at_rest(self) -> bool {
        self.book.wf() && !self.book.crosses()
    }

    /// The sequence that the next order gets: the sequence counter, or the
    /// least sequence above every resting order where the counter lies
    /// below that, as it may after a load.
    pub open spec fn raised_sequence(self) -> int {
        if self.next_sequence >= sequence_bound(self.book.resting()) {
            self.next_sequence as int
        } else {
            sequence_bound(self.book.resting())
        }
    }

    /// Why `order` is not taken in, if it is not: it is not an active order
    /// with a positive price and quantity; or the numbers for it or for the
    /// trades it may make have run out; or its id is taken.
    pub open spec fn refusal(self, order: Order) -> Option<BookError> {
        if !(order.order_status == OrderStatus::Active && order.price > 0 && order.quantity > 0) {
            Some(BookError::InvalidArgument)
        } else if self.raised_sequence() >= u64::MAX || self.next_trade + self.book.bids.len()
            + self.book.asks.len() + 1 > u64::MAX {
            Some(BookError::SequenceExhausted)
        } else if self.book.knows(order.id) {
            Some(BookError::DuplicateOrder)
        } else {
            None
        }
    }

    /// Why `order` is not taken in on the `target` side, if it is not: it
    /// belongs to the other side, or it is refused as by `refusal`.
    pub open spec fn refusal_on(self, target: OrderType, order: Order) -> Option<BookError> {
        if order.order_type != target {
            Some(BookError::WrongSide { expected: target })
        } else {
            self.refusal(order)
        }
    }

    /// The order under the sequence that is assigned to it, which lies
    /// above that of every resting order.
    pub open spec fn placing(self, order: Order) -> Order {
        Order { sequence: self.raised_sequence() as u64, ..order }
    }

    /// The book with the order at rest, before anything is settled.
    pub open spec fn entered(self, order: Order) -> BookState {
        self.book.adding(self.placing(order))
    }

    /// The trades that the order brings about.
    pub open spec fn trades_of(self, order: Order) -> Seq<Trade> {
        self.entered(order).settlement(self.next_trade as int)
    }

    /// The order as it stands when what it crossed has been settled.
    pub open spec fn answer(self, order: Order) -> Order {
        self.placing(order).after_trading(traded(self.trades_of(order), order.id))
    }

    /// The book and its counters after the order has been taken in.
    pub open spec fn accepting(self, order: Order) -> Ledger {
        Ledger {
            book: self.entered(order).settled(),
            next_sequence: (self.raised_sequence() + 1) as u64,
            next_trade: (self.next_trade + self.trades_of(order).len()) as u64,
        }
    }

    /// Whether handing `order` to the `target` side of `self` may end with
    /// `result` and leave `after`. A refused order leaves everything as it
    /// was. An order that is taken in rests under the next sequence, the
    /// book is settled, and the order comes back as it then stands, with the
    /// trades it made.
    pub open spec fn appends(
        self,
        target: OrderType,
        order: Order,
        result: Result<(Order, Vec<Trade>), BookError>,
        after: Ledger,
    ) -> bool {
        match self.refusal_on(target, order) {
            Some(e) => result == Err::<(Order, Vec<Trade>), BookError>(e) && after == self,
            None => {
                &&& result is Ok
                &&& result->Ok_0.0 == self.answer(order)
                &&& result->Ok_0.1@ == self.trades_of(order)
                &&& after == self.accepting(order)
            },
        }
    }

    /// `appends` for an order that is handed to its own side.
    pub open spec fn accepts(
        self,
        order: Order,
        result: Result<(Order, Vec<Trade>), BookError>,
        after: Ledger,
    ) -> bool {
        self.appends(order.order_type, order, result, after)
    }

    /// What holds of an order that was taken in, of the order `answer` that
    /// came back for it and of the `trades` it brought about.
    /// - The order entered its side behind every resting order at the same
    ///   or a better price, and in front of every other.
    /// - What is left of it lies between nothing and its quantity.
    /// - The trades number on from the trade counter, and each moves a
    ///   positive quantity.
    /// - The order is the taker of every trade, never the maker, and each
    ///   trade is made at the limit price of a resting order of the other
    ///   side.
    /// - Together the trades move what the order has lost, which is no more
    ///   than its quantity.
    pub open spec fn serves(self, order: Order, answer: Order, trades: Seq<Trade>) -> bool {
        let side = order.order_type;
        let before = self.book.side(side);
        let place = insert_position(side, before, self.placing(order));
        &&& 0 <= place <= before.len()
        &&& forall|i: int|
            0 <= i < before.len() ==> (i < place <==> no_worse(
                side,
                (#[trigger] before[i]).price,
                order.price,
            ))
        &&& 0 <= answer.quantity <= order.quantity
        &&& forall|i: int|
            0 <= i < trades.len() ==> {
                let trade = #[trigger] trades[i];
                &&& trade.sequence == self.next_trade + i
                &&& trade.quantity > 0
                &&& trade.taker_order_id == order.id
                &&& trade.maker_order_id != order.id
                &&& quotes(self.book.facing(side), trade.maker_order_id, trade.price)
            }
        &&& volume(trades) == order.quantity - answer.quantity
        &&& traded(trades, order.id) == order.quantity - answer.quantity
    }
}

/// A book at rest never rests crossed: when both sides hold orders, the
/// best bid is below the best ask, and so is every bid below every ask.
pub proof fn lemma_never_rests_crossed(state: Ledger)
    requires
        state.at_rest(),
    ensures
        state.book.bids.len() > 0 && state.book.asks.len() > 0 ==> state.book.bids[0].price
            < state.book.asks[0].price,
        forall|i: int, j: int|
            #![trigger state.book.bids[i], state.book.asks[j]]
            0 <= i < state.book.bids.len() && 0 <= j < state.book.asks.len()
                ==> state.book.bids[i].price < state.book.asks[j].price,
{
}

/// The raised sequence lies above that of every resting order.
pub proof fn lemma_raised_sequence(state: Ledger)
    ensures
        sequenced_below(state.book.bids, state.raised_sequence()),
        sequenced_below(state.book.asks, state.raised_sequence()),
        state.next_sequence <= state.raised_sequence() <= u64::MAX + 1,
{
    let bound = state.raised_sequence();
    lemma_sequence_bound(state.book.resting());
    assert forall|j: int| 0 <= j < state.book.bids.len() implies (
    #[trigger] state.book.bids[j]).sequence < bound by {
        assert(state.book.resting()[j] == state.book.bids[j]);
    }
    assert forall|j: int| 0 <= j < state.book.asks.len() implies (
    #[trigger] state.book.asks[j]).sequence < bound by {
        assert(state.book.resting()[state.book.bids.len() + j] == state.book.asks[j]);
    }
}

/// What holds when an order is taken in by a book at rest. The book is at
/// rest again. The order as answered rests in the book if something of it
/// is left, and was logged as filled if nothing is. And `serves` holds of
/// the order, its answer and its trades.
pub proof fn lemma_accepting(state: Ledger, order: Order)
    requires
        state.at_rest(),
        state.refusal(order) is None,
    ensures
        state.accepting(order).at_rest(),
        state.accepting(order).next_sequence == state.raised_sequence() + 1,
        state.accepting(order).next_trade == state.next_trade + state.trades_of(order).len(),
        state.entered(order).wf(),
        state.entered(order).bids.len() + state.entered(order).asks.len() == state.book.bids.len()
            + state.book.asks.len() + 1,
        state.trades_of(order).len() <= state.book.bids.len() + state.book.asks.len() + 1,
        state.answer(order).quantity > 0 ==> state.accepting(order).book.rests(order.id)
            && state.accepting(order).book.resting_order(order.id) == state.answer(order),
        state.answer(order).quantity == 0 ==> !state.accepting(order).book.rests(order.id)
            && exists|i: int|
            state.book.closed.len() <= i < state.accepting(order).book.closed.len()
                && #[trigger] state.accepting(order).book.closed[i] == state.answer(order),
        state.serves(order, state.answer(order), state.trades_of(order)),
{
    let placed = state.placing(order);
    let side = order.order_type;
    let entered = state.entered(order);
    let first = state.next_trade as int;
    let before = state.book.side(side);
    let p = insert_position(side, before, placed);
    lemma_raised_sequence(state);
    lemma_adding_wf(state.book, placed);
    lemma_insert_position(side, before, placed);
    lemma_settled(entered);
    lemma_settlement_numbered(entered, first);
    lemma_settlement_positive(entered, first);
    lemma_resting_order_at(entered, side, p);
    lemma_settled_tracks(entered, first, order.id);
    lemma_latest_never_makes(entered, first, side, p);
    if p == 0 {
        lemma_incoming_takes(entered, first, side);
    }
}

} // verus!
