//! Snapshots: what a store keeps of a book, and the book that comes back
//! from one.

use crate::order::{Order, OrderStatus, OrderType};
use crate::priority::{lemma_insert_position_unique, sorted, with_order};
use crate::state::{distinct_ids, has_id, of_kind, BookState};
use vstd::prelude::*;

verus! {

/// What is stored of one instrument's book.
#[derive(Debug)]
pub struct Item {
    /// The resting orders: the bids, then the asks, each best first.
    pub active_orders: Vec<Order>,
    /// The log of closed orders.
    pub fulfilled_orders: Vec<Order>,
}

impl BookState {
    /// The book after the stored resting orders have been taken up one after
    /// the other: each one whose status is Active enters its side under the
    /// sequence it was stored with, the others are passed over. There is no
    /// such book when one of the active orders is refused.
    pub open spec fn reloading(self, orders: Seq<Order>) -> Option<BookState>
        decreases orders.len(),
    {
        if orders.len() == 0 {
            Some(self)
        } else if orders[0].order_status != OrderStatus::Active {
            self.reloading(orders.drop_first())
        } else if self.refusal(orders[0].order_type, orders[0]) is Some {
            None
        } else {
            self.adding(orders[0]).reloading(orders.drop_first())
        }
    }

    /// The book after the stored closed orders have been put behind its log
    /// one after the other. There is no such book when one of them is not a
    /// closed order, or has an id that the book already holds.
    pub open spec fn logging(self, orders: Seq<Order>) -> Option<BookState>
        decreases orders.len(),
    {
        if orders.len() == 0 {
            Some(self)
        } else if !(orders[0].wf() && orders[0].order_status.is_terminal()) || self.knows(
            orders[0].id,
        ) {
            None
        } else {
            (BookState { closed: self.closed.push(orders[0]), ..self }).logging(
                orders.drop_first(),
            )
        }
    }

    /// The book after a snapshot has been loaded into it: the active orders
    /// rest again, and the stored log stands behind the book's own. There is
    /// no such book when an active order is refused, when the stored log
    /// holds an order that is not closed, when an id of the stored log would
    /// then stand twice in the book, or when the book would be crossed.
    pub open spec fn loaded(self, active: Seq<Order>, fulfilled: Seq<Order>) -> Option<BookState> {
        match self.reloading(active) {
            Some(book) => match book.logging(fulfilled) {
                Some(whole) => if whole.crosses() {
                    None
                } else {
                    Some(whole)
                },
                None => None,
            },
            None => None,
        }
    }

    /// The book without the resting orders that have traded in part.
    pub open spec fn active_part(self) -> BookState {
        BookState {
            bids: self.bids.filter(of_kind(OrderType::Buy, OrderStatus::Active)),
            asks: self.asks.filter(of_kind(OrderType::Sell, OrderStatus::Active)),
            ..self
        }
    }

    /// Every resting order has the status Active: none has traded yet.
    pub open spec fn untouched(self) -> bool {
        forall|i: int|
            0 <= i < self.resting().len() ==> (#[trigger] self.resting()[i]).order_status
                == OrderStatus::Active
    }
}

/// Each order of a filtered prefix of `s` is an order of that prefix.
proof fn lemma_kept_from(s: Seq<Order>, n: int, test: spec_fn(Order) -> bool, i: int) -> (j: int)
    requires
        0 <= n <= s.len(),
        0 <= i < s.take(n).filter(test).len(),
    ensures
        0 <= j < n,
        s[j] == s.take(n).filter(test)[i],
        test(s[j]),
{
    let kept = s.take(n).filter(test);
    s.take(n).lemma_filter_contains_rev(test, kept[i]);
    s.take(n).lemma_filter_pred(test, i);
    let j = choose|j: int| 0 <= j < s.take(n).len() && s.take(n)[j] == kept[i];
    j
}

/// On a side in good order, the order at place `n` enters the active orders
/// in front of it at their end, and its id is new to them.
proof fn lemma_enters_behind(side: OrderType, s: Seq<Order>, n: int)
    requires
        sorted(side, s),
        distinct_ids(s),
        0 <= n < s.len(),
    ensures
        ({
            let kept = s.take(n).filter(of_kind(side, OrderStatus::Active));
            &&& !has_id(kept, s[n].id)
            &&& with_order(side, kept, s[n]) == kept.push(s[n])
        }),
{
    let test = of_kind(side, OrderStatus::Active);
    let kept = s.take(n).filter(test);
    assert(!has_id(kept, s[n].id)) by {
        if has_id(kept, s[n].id) {
            let i = choose|i: int| 0 <= i < kept.len() && (#[trigger] kept[i]).id == s[n].id;
            let j = lemma_kept_from(s, n, test, i);
        }
    }
    if kept.len() > 0 {
        let j = lemma_kept_from(s, n, test, kept.len() - 1);
    }
    lemma_insert_position_unique(side, kept, s[n], kept.len() as int);
}

/// No order among the active ones of `a` shares its id with `b[k]`.
proof fn lemma_kept_apart(side: OrderType, a: Seq<Order>, b: Seq<Order>, k: int)
    requires
        forall|i: int, j: int|
            #![trigger a[i], b[j]]
            0 <= i < a.len() && 0 <= j < b.len() ==> a[i].id != b[j].id,
        0 <= k < b.len(),
    ensures
        !has_id(a.filter(of_kind(side, OrderStatus::Active)), b[k].id),
{
    let test = of_kind(side, OrderStatus::Active);
    let kept = a.filter(test);
    assert(a.take(a.len() as int) =~= a);
    if has_id(kept, b[k].id) {
        let i = choose|i: int| 0 <= i < kept.len() && (#[trigger] kept[i]).id == b[k].id;
        let j = lemma_kept_from(a, a.len() as int, test, i);
    }
}

/// The part of a reload that is still to come, when the first `n` resting
/// orders of `state` have been taken up by an empty book.
proof fn lemma_reloading_from(state: BookState, n: int)
    requires
        state.wf(),
        0 <= n <= state.resting().len(),
    ensures
        ({
            let b = if n <= state.bids.len() { n } else { state.bids.len() as int };
            let current = BookState {
                pair: state.pair,
                bids: state.bids.take(b).filter(of_kind(OrderType::Buy, OrderStatus::Active)),
                asks: state.asks.take(n - b).filter(of_kind(OrderType::Sell, OrderStatus::Active)),
                closed: Seq::empty(),
            };
            current.reloading(state.resting().skip(n)) == Some(
                BookState { closed: Seq::empty(), ..state.active_part() },
            )
        }),
    decreases state.resting().len() - n,
{
    let buys = of_kind(OrderType::Buy, OrderStatus::Active);
    let sells = of_kind(OrderType::Sell, OrderStatus::Active);
    let b = if n <= state.bids.len() { n } else { state.bids.len() as int };
    let a = n - b;
    let rest = state.resting().skip(n);
    if n == state.resting().len() {
        assert(state.bids.take(b) =~= state.bids);
        assert(state.asks.take(a) =~= state.asks);
    } else {
        let order = rest[0];
        assert(rest.drop_first() =~= state.resting().skip(n + 1));
        lemma_reloading_from(state, n + 1);
        if n < state.bids.len() {
            assert(state.bids.take(n + 1) =~= state.bids.take(n).push(order));
            state.bids.take(n).lemma_filter_push(order, buys);
            state.asks.take(0).lemma_filter_len(sells);
            lemma_enters_behind(OrderType::Buy, state.bids, n);
        } else {
            assert(state.asks.take(a + 1) =~= state.asks.take(a).push(order));
            state.asks.take(a).lemma_filter_push(order, sells);
            assert(state.bids.take(b) =~= state.bids);
            lemma_enters_behind(OrderType::Sell, state.asks, a);
            lemma_kept_apart(OrderType::Buy, state.bids, state.asks, a);
        }
    }
}

/// The part of putting the log back that is still to come, when the first
/// `n` orders of the log of `state` stand in the log again.
proof fn lemma_logging_from(state: BookState, n: int)
    requires
        state.wf(),
        0 <= n <= state.closed.len(),
    ensures
        (BookState { closed: state.closed.take(n), ..state.active_part() }).logging(
            state.closed.skip(n),
        ) == Some(state.active_part()),
    decreases state.closed.len() - n,
{
    let rest = state.closed.skip(n);
    if n == state.closed.len() {
        assert(state.closed.take(n) =~= state.closed);
    } else {
        let order = rest[0];
        assert(rest.drop_first() =~= state.closed.skip(n + 1));
        assert(state.closed.take(n).push(order) =~= state.closed.take(n + 1));
        lemma_kept_apart(OrderType::Buy, state.bids, state.closed, n);
        lemma_kept_apart(OrderType::Sell, state.asks, state.closed, n);
        lemma_logging_from(state, n + 1);
    }
}

/// A side on which no order has traded yet is all active.
proof fn lemma_untouched_side(side: OrderType, s: Seq<Order>)
    requires
        forall|i: int|
            0 <= i < s.len() ==> (#[trigger] s[i]).order_type == side && s[i].order_status
                == OrderStatus::Active,
    ensures
        s.filter(of_kind(side, OrderStatus::Active)) == s,
    decreases s.len(),
{
    let test = of_kind(side, OrderStatus::Active);
    if s.len() == 0 {
        s.lemma_filter_len(test);
    } else {
        let front = s.drop_last();
        lemma_untouched_side(side, front);
        front.lemma_filter_push(s.last(), test);
        assert(front.push(s.last()) =~= s);
    }
}

/// What comes back from a snapshot: a fresh book that loads the snapshot of
/// a book at rest holds that book's active orders, each side in the
/// same order as before, and the same log. Resting orders that have traded
/// in part do not come back, so the active orders of the book that comes
/// back are those of the book that was stored.
pub proof fn lemma_reload_keeps_active(state: BookState)
    requires
        state.wf(),
        !state.crosses(),
    ensures
        BookState::empty(state.pair).loaded(state.resting(), state.closed) == Some(
            state.active_part(),
        ),
        state.active_part().active_part() == state.active_part(),
        !state.active_part().crosses(),
{
    let kept = state.active_part();
    if kept.bids.len() > 0 && kept.asks.len() > 0 {
        assert(state.bids.take(state.bids.len() as int) =~= state.bids);
        assert(state.asks.take(state.asks.len() as int) =~= state.asks);
        let i = lemma_kept_from(
            state.bids,
            state.bids.len() as int,
            of_kind(OrderType::Buy, OrderStatus::Active),
            0,
        );
        let j = lemma_kept_from(
            state.asks,
            state.asks.len() as int,
            of_kind(OrderType::Sell, OrderStatus::Active),
            0,
        );
        assert(state.bids[i].price <= state.bids[0].price);
        assert(state.asks[0].price <= state.asks[j].price);
    }
    assert(state.active_part().active_part() == state.active_part()) by {
        let buys = of_kind(OrderType::Buy, OrderStatus::Active);
        let sells = of_kind(OrderType::Sell, OrderStatus::Active);
        lemma_untouched_side(OrderType::Buy, state.bids.filter(buys));
        lemma_untouched_side(OrderType::Sell, state.asks.filter(sells));
    }
    lemma_reloading_from(state, 0);
    lemma_logging_from(state, 0);
    assert(state.closed.take(0) =~= Seq::<Order>::empty());
    assert(state.closed.skip(0) =~= state.closed);
    state.bids.take(0).lemma_filter_len(of_kind(OrderType::Buy, OrderStatus::Active));
    state.asks.take(0).lemma_filter_len(of_kind(OrderType::Sell, OrderStatus::Active));
    assert(state.bids.take(0).filter(of_kind(OrderType::Buy, OrderStatus::Active))
        =~= Seq::<Order>::empty());
    assert(state.asks.take(0).filter(of_kind(OrderType::Sell, OrderStatus::Active))
        =~= Seq::<Order>::empty());
    assert(state.resting().skip(0) =~= state.resting());
}

/// Reloading is idempotent: a fresh book that loads the snapshot of a book
/// in which no resting order has traded yet is that book again, with the
/// same resting orders in the same places and the same log.
pub proof fn lemma_reload_restores(state: BookState)
    requires
        state.wf(),
        !state.crosses(),
        state.untouched(),
    ensures
        BookState::empty(state.pair).loaded(state.resting(), state.closed) == Some(state),
{
    lemma_reload_keeps_active(state);
    assert forall|i: int| 0 <= i < state.bids.len() implies (#[trigger] state.bids[i]).order_status
        == OrderStatus::Active by {
        assert(state.resting()[i] == state.bids[i]);
    }
    assert forall|i: int| 0 <= i < state.asks.len() implies (#[trigger] state.asks[i]).order_status
        == OrderStatus::Active by {
        assert(state.resting()[state.bids.len() + i] == state.asks[i]);
    }
    lemma_untouched_side(OrderType::Buy, state.bids);
    lemma_untouched_side(OrderType::Sell, state.asks);
}

} // verus!
