//! The book as a mathematical value: two sides in priority order and the log
//! of closed orders, with what it means for them to be in good order.

use crate::error::BookError;
use crate::order::{Order, OrderStatus, OrderType};
use crate::priority::{
    lemma_insert_position, lemma_with_order_sorted, ranks_before, sorted, with_order,
};
use vstd::prelude::*;

verus! {

/// Whether some order in `s` has this id.
pub open spec fn has_id(s: Seq<Order>, id: u128) -> bool {
    exists|i: int| 0 <= i < s.len() && (#[trigger] s[i]).id == id
}

/// The index of the first order in `s` with this id, or the length of `s`
/// when there is none.
pub open spec fn position_of(s: Seq<Order>, id: u128) -> int
    decreases s.len(),
{
    if s.len() == 0 {
        0
    } else if s[0].id == id {
        0
    } else {
        1 + position_of(s.drop_first(), id)
    }
}

/// No two orders in `s` share an id.
pub open spec fn distinct_ids(s: Seq<Order>) -> bool {
    forall|i: int, j: int| #![trigger s[i], s[j]] 0 <= i < j < s.len() ==> s[i].id != s[j].id
}

/// No order in `a` shares its id with one in `b`.
pub open spec fn disjoint_ids(a: Seq<Order>, b: Seq<Order>) -> bool {
    forall|i: int, j: int|
        #![trigger a[i], b[j]]
        0 <= i < a.len() && 0 <= j < b.len() ==> a[i].id != b[j].id
}

/// Every order in `s` belongs to `side` and can rest there.
pub open spec fn all_rest(side: OrderType, s: Seq<Order>) -> bool {
    forall|i: int| 0 <= i < s.len() ==> (#[trigger] s[i]).order_type == side && s[i].can_rest()
}

/// Every order in `s` is well formed and terminal.
pub open spec fn all_closed(s: Seq<Order>) -> bool {
    forall|i: int| 0 <= i < s.len() ==> (#[trigger] s[i]).wf() && s[i].order_status.is_terminal()
}

/// The open quantity that `s` holds under this id.
pub open spec fn quantity_of(s: Seq<Order>, id: u128) -> int
    decreases s.len(),
{
    if s.len() == 0 {
        0
    } else {
        (if s[0].id == id {
            s[0].quantity as int
        } else {
            0
        }) + quantity_of(s.drop_first(), id)
    }
}

/// Every order in `s` has a sequence below `bound`.
pub open spec fn sequenced_below(s: Seq<Order>, bound: int) -> bool {
    forall|i: int| 0 <= i < s.len() ==> (#[trigger] s[i]).sequence < bound
}

/// Whether `s` holds an order with this id at this price.
pub open spec fn quotes(s: Seq<Order>, id: u128, price: i32) -> bool {
    exists|i: int| 0 <= i < s.len() && (#[trigger] s[i]).id == id && s[i].price == price
}

/// The test for an order of `side` in `status`.
pub open spec fn of_kind(side: OrderType, status: OrderStatus) -> spec_fn(Order) -> bool {
    |o: Order| o.order_type == side && o.order_status == status
}

/// What a book holds.
pub struct BookState {
    /// The instrument.
    pub pair: Seq<char>,
    /// Resting buy orders, best first.
    pub bids: Seq<Order>,
    /// Resting sell orders, best first.
    pub asks: Seq<Order>,
    /// Filled and cancelled orders, in the order in which they closed.
    pub closed: Seq<Order>,
}

impl BookState {
    /// A book for `pair` that holds nothing.
    pub open spec fn empty(pair: Seq<char>) -> BookState {
        BookState { pair, bids: Seq::empty(), asks: Seq::empty(), closed: Seq::empty() }
    }

    /// Both sides are in priority order and hold live orders of their own
    /// side only, the log holds terminal orders only, and no id stands twice
    /// in the book, be it on a side or in the log.
    pub open spec fn wf(self) -> bool {
        &&& sorted(OrderType::Buy, self.bids)
        &&& sorted(OrderType::Sell, self.asks)
        &&& all_rest(OrderType::Buy, self.bids)
        &&& all_rest(OrderType::Sell, self.asks)
        &&& distinct_ids(self.bids)
        &&& distinct_ids(self.asks)
        &&& disjoint_ids(self.bids, self.asks)
        &&& all_closed(self.closed)
        &&& distinct_ids(self.closed)
        &&& disjoint_ids(self.bids, self.closed)
        &&& disjoint_ids(self.asks, self.closed)
    }

    /// The resting orders of one side.
    pub open spec fn side(self, side: OrderType) -> Seq<Order> {
        match side {
            OrderType::Buy => self.bids,
            OrderType::Sell => self.asks,
        }
    }

    /// The resting orders of the other side.
    pub open spec fn facing(self, side: OrderType) -> Seq<Order> {
        match side {
            OrderType::Buy => self.asks,
            OrderType::Sell => self.bids,
        }
    }

    /// The book without the first order of one side.
    pub open spec fn without_top(self, side: OrderType) -> BookState {
        match side {
            OrderType::Buy => BookState { bids: self.bids.drop_first(), ..self },
            OrderType::Sell => BookState { asks: self.asks.drop_first(), ..self },
        }
    }

    /// All resting orders: the bids, then the asks.
    pub open spec fn resting(self) -> Seq<Order> {
        self.bids + self.asks
    }

    /// Whether an order with this id rests in the book.
    pub open spec fn rests(self, id: u128) -> bool {
        has_id(self.bids, id) || has_id(self.asks, id)
    }

    /// Whether the book holds an order with this id, resting or closed.
    pub open spec fn knows(self, id: u128) -> bool {
        self.rests(id) || has_id(self.closed, id)
    }

    /// The resting order with this id, in a book in which one rests.
    pub open spec fn resting_order(self, id: u128) -> Order {
        if has_id(self.bids, id) {
            self.bids[position_of(self.bids, id)]
        } else {
            self.asks[position_of(self.asks, id)]
        }
    }

    /// The open quantity that rests under this id.
    pub open spec fn open_quantity(self, id: u128) -> int {
        quantity_of(self.bids, id) + quantity_of(self.asks, id)
    }

    /// Whether the best bid meets or exceeds the best ask.
    pub open spec fn crosses(self) -> bool {
        self.bids.len() > 0 && self.asks.len() > 0 && self.bids[0].price >= self.asks[0].price
    }

    /// Why `order` may not enter the `target` side, if it may not.
    pub open spec fn refusal(self, target: OrderType, order: Order) -> Option<BookError> {
        if order.order_type != target {
            Some(BookError::WrongSide { expected: target })
        } else if !order.can_rest() {
            Some(BookError::InvalidArgument)
        } else if self.knows(order.id) {
            Some(BookError::DuplicateOrder)
        } else {
            None
        }
    }

    /// The book after `order` has entered its side.
    pub open spec fn adding(self, order: Order) -> BookState {
        match order.order_type {
            OrderType::Buy => BookState {
                bids: with_order(OrderType::Buy, self.bids, order),
                ..self
            },
            OrderType::Sell => BookState {
                asks: with_order(OrderType::Sell, self.asks, order),
                ..self
            },
        }
    }

    /// The book after each of `orders` has been offered to its own side in
    /// turn; an order that the book refuses is passed over.
    pub open spec fn adding_each(self, orders: Seq<Order>) -> BookState
        decreases orders.len(),
    {
        if orders.len() == 0 {
            self
        } else {
            let before = self.adding_each(orders.drop_last());
            let order = orders.last();
            if before.refusal(order.order_type, order) is None {
                before.adding(order)
            } else {
                before
            }
        }
    }

    /// The book after the resting order with this id has been cancelled: it
    /// leaves its side and is logged as cancelled. A book in which no such
    /// order rests is unchanged.
    pub open spec fn cancelling(self, id: u128) -> BookState {
        if has_id(self.bids, id) {
            let i = position_of(self.bids, id);
            BookState {
                bids: self.bids.remove(i),
                closed: self.closed.push(self.bids[i].withdrawn()),
                ..self
            }
        } else if has_id(self.asks, id) {
            let i = position_of(self.asks, id);
            BookState {
                asks: self.asks.remove(i),
                closed: self.closed.push(self.asks[i].withdrawn()),
                ..self
            }
        } else {
            self
        }
    }
}

/// `position_of` finds the first order with the id, if there is one.
pub proof fn lemma_position_of(s: Seq<Order>, id: u128)
    ensures
        0 <= position_of(s, id) <= s.len(),
        position_of(s, id) < s.len() <==> has_id(s, id),
        position_of(s, id) < s.len() ==> s[position_of(s, id)].id == id,
        forall|j: int| 0 <= j < position_of(s, id) ==> (#[trigger] s[j]).id != id,
    decreases s.len(),
{
    if s.len() == 0 {
    } else if s[0].id == id {
    } else {
        let rest = s.drop_first();
        lemma_position_of(rest, id);
        let p = position_of(rest, id);
        assert forall|j: int| 0 <= j < p + 1 implies (#[trigger] s[j]).id != id by {
            if j > 0 {
                assert(rest[j - 1] == s[j]);
            }
        }
    }
}

/// An index that holds the id and has none before it that does is the one
/// `position_of` gives.
pub proof fn lemma_position_of_unique(s: Seq<Order>, id: u128, p: int)
    requires
        0 <= p <= s.len(),
        p < s.len() ==> s[p].id == id,
        forall|j: int| 0 <= j < p ==> (#[trigger] s[j]).id != id,
    ensures
        p == position_of(s, id),
{
    lemma_position_of(s, id);
}

/// A side keeps its good order when an order of that side with an id that
/// is new to it enters.
pub proof fn lemma_with_order_side(side: OrderType, s: Seq<Order>, order: Order)
    requires
        sorted(side, s),
        all_rest(side, s),
        distinct_ids(s),
        order.order_type == side,
        order.can_rest(),
        !has_id(s, order.id),
    ensures
        sorted(side, with_order(side, s, order)),
        all_rest(side, with_order(side, s, order)),
        distinct_ids(with_order(side, s, order)),
{
    lemma_with_order_sorted(side, s, order);
    lemma_insert_position(side, s, order);
}

/// An id that `b` does not hold is still apart from `b` after it has entered `a`.
pub proof fn lemma_with_order_disjoint(side: OrderType, a: Seq<Order>, b: Seq<Order>, order: Order)
    requires
        disjoint_ids(a, b),
        !has_id(b, order.id),
    ensures
        disjoint_ids(with_order(side, a, order), b),
        disjoint_ids(b, with_order(side, a, order)),
{
    lemma_insert_position(side, a, order);
}

/// Ids that are apart one way round are apart the other way round.
pub proof fn lemma_disjoint_symmetric(a: Seq<Order>, b: Seq<Order>)
    requires
        disjoint_ids(a, b),
    ensures
        disjoint_ids(b, a),
{
}

/// A book in good order stays so when an order that it does not refuse enters.
pub proof fn lemma_adding_wf(state: BookState, order: Order)
    requires
        state.wf(),
        state.refusal(order.order_type, order) is None,
    ensures
        state.adding(order).wf(),
{
    match order.order_type {
        OrderType::Buy => {
            lemma_with_order_side(OrderType::Buy, state.bids, order);
            lemma_with_order_disjoint(OrderType::Buy, state.bids, state.asks, order);
            lemma_with_order_disjoint(OrderType::Buy, state.bids, state.closed, order);
        },
        OrderType::Sell => {
            lemma_with_order_side(OrderType::Sell, state.asks, order);
            lemma_disjoint_symmetric(state.bids, state.asks);
            lemma_with_order_disjoint(OrderType::Sell, state.asks, state.bids, order);
            lemma_with_order_disjoint(OrderType::Sell, state.asks, state.closed, order);
        },
    }
}

/// A side keeps its good order when an order leaves it.
pub proof fn lemma_remove_side(side: OrderType, s: Seq<Order>, i: int)
    requires
        sorted(side, s),
        all_rest(side, s),
        distinct_ids(s),
        0 <= i < s.len(),
    ensures
        sorted(side, s.remove(i)),
        all_rest(side, s.remove(i)),
        distinct_ids(s.remove(i)),
{
}

/// Ids stay apart when an order leaves one of the two sides.
pub proof fn lemma_remove_disjoint(a: Seq<Order>, b: Seq<Order>, i: int)
    requires
        disjoint_ids(a, b),
        0 <= i < a.len(),
    ensures
        disjoint_ids(a.remove(i), b),
        disjoint_ids(b, a.remove(i)),
{
    let t = a.remove(i);
    lemma_disjoint_symmetric(t, b);
}

/// A cancellation keeps a book in good order, and it cannot make the best
/// bid meet the best ask.
pub proof fn lemma_cancelling_wf(state: BookState, id: u128)
    requires
        state.wf(),
    ensures
        state.cancelling(id).wf(),
        !state.crosses() ==> !state.cancelling(id).crosses(),
{
    if has_id(state.bids, id) {
        lemma_position_of(state.bids, id);
        let i = position_of(state.bids, id);
        lemma_remove_side(OrderType::Buy, state.bids, i);
        lemma_remove_disjoint(state.bids, state.asks, i);
    } else if has_id(state.asks, id) {
        lemma_position_of(state.asks, id);
        let i = position_of(state.asks, id);
        lemma_remove_side(OrderType::Sell, state.asks, i);
        lemma_disjoint_symmetric(state.bids, state.asks);
        lemma_remove_disjoint(state.asks, state.bids, i);
    }
}

/// The first order of a side in priority order is the best of the side: no
/// order there has a better price, and none at its price an earlier sequence.
pub proof fn lemma_first_is_best(side: OrderType, s: Seq<Order>)
    requires
        sorted(side, s),
    ensures
        forall|i: int| 0 <= i < s.len() ==> ranks_before(side, s[0], #[trigger] s[i]),
{
}

/// Priority holds after any series of insertions: whatever orders are
/// offered to a book in good order, and in whatever order they come, the
/// book stays in good order, and the first order of each side is the best
/// of that side.
pub proof fn lemma_insertions_keep_priority(start: BookState, orders: Seq<Order>)
    requires
        start.wf(),
    ensures
        start.adding_each(orders).wf(),
        forall|i: int|
            0 <= i < start.adding_each(orders).bids.len() ==> ranks_before(
                OrderType::Buy,
                start.adding_each(orders).bids[0],
                #[trigger] start.adding_each(orders).bids[i],
            ),
        forall|i: int|
            0 <= i < start.adding_each(orders).asks.len() ==> ranks_before(
                OrderType::Sell,
                start.adding_each(orders).asks[0],
                #[trigger] start.adding_each(orders).asks[i],
            ),
    decreases orders.len(),
{
    if orders.len() > 0 {
        lemma_insertions_keep_priority(start, orders.drop_last());
        let before = start.adding_each(orders.drop_last());
        if before.refusal(orders.last().order_type, orders.last()) is None {
            lemma_adding_wf(before, orders.last());
        }
    }
    lemma_first_is_best(OrderType::Buy, start.adding_each(orders).bids);
    lemma_first_is_best(OrderType::Sell, start.adding_each(orders).asks);
}

} // verus!
