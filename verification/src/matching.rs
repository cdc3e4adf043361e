//! The crossing pass as a function on books: while the best bid meets the
//! best ask, the two trade at the price of the one that came first.

use crate::order::{Order, OrderStatus, OrderType};
use crate::priority::sorted;
use crate::state::{
    all_rest, distinct_ids, has_id, lemma_position_of, lemma_position_of_unique, position_of,
    quantity_of, quotes, sequenced_below, BookState,
};
use crate::trade::{positive, traded, traded_between, volume, Trade};
use vstd::prelude::*;

verus! {

impl BookState {
    /// The quantity that the best bid and the best ask trade with each
    /// other: the smaller of what the two have open.
    pub open spec fn matched_quantity(self) -> int {
        if self.bids[0].quantity <= self.asks[0].quantity {
            self.bids[0].quantity as int
        } else {
            self.asks[0].quantity as int
        }
    }

    /// Whether the best bid is the maker of the next trade: the one of the
    /// pair with the earlier sequence is, and the bid when the two tie.
    pub open spec fn bid_is_maker(self) -> bool {
        self.bids[0].sequence <= self.asks[0].sequence
    }

    /// The trade between the best bid and the best ask of a book that
    /// crosses, numbered `sequence`. Its price is the maker's.
    pub open spec fn next_trade(self, sequence: int) -> Trade {
        let bid = self.bids[0];
        let ask = self.asks[0];
        if self.bid_is_maker() {
            Trade {
                maker_order_id: bid.id,
                taker_order_id: ask.id,
                price: bid.price,
                quantity: self.matched_quantity() as i32,
                sequence: sequence as u64,
            }
        } else {
            Trade {
                maker_order_id: ask.id,
                taker_order_id: bid.id,
                price: ask.price,
                quantity: self.matched_quantity() as i32,
                sequence: sequence as u64,
            }
        }
    }

    /// A book that crosses, after its best bid and its best ask have traded:
    /// both are reduced by the matched quantity, and the one that has nothing
    /// left (or both) leaves its side and is logged as filled, the bid first.
    pub open spec fn after_match(self) -> BookState {
        let bid = self.bids[0];
        let ask = self.asks[0];
        let q = self.matched_quantity();
        let bid_done = bid.quantity <= ask.quantity;
        let ask_done = ask.quantity <= bid.quantity;
        BookState {
            bids: if bid_done {
                self.bids.drop_first()
            } else {
                self.bids.update(0, bid.filled_by(q))
            },
            asks: if ask_done {
                self.asks.drop_first()
            } else {
                self.asks.update(0, ask.filled_by(q))
            },
            closed: self.closed + (if bid_done {
                seq![bid.filled_by(q)]
            } else {
                seq![]
            }) + (if ask_done {
                seq![ask.filled_by(q)]
            } else {
                seq![]
            }),
            ..self
        }
    }

    /// The book after a crossing pass: matches are made at the top of the
    /// book until it no longer crosses.
    pub open spec fn settled(self) -> BookState
        decreases self.bids.len() + self.asks.len(),
    {
        if self.crosses() {
            self.after_match().settled()
        } else {
            self
        }
    }

    /// The trades of a crossing pass, in the order in which they are made,
    /// numbered from `first`.
    pub open spec fn settlement(self, first: int) -> Seq<Trade>
        decreases self.bids.len() + self.asks.len(),
    {
        if self.crosses() {
            seq![self.next_trade(first)] + self.after_match().settlement(first + 1)
        } else {
            seq![]
        }
    }
}

/// One match keeps a book in good order.
pub proof fn lemma_after_match_wf(state: BookState)
    requires
        state.wf(),
        state.crosses(),
    ensures
        state.after_match().wf(),
        state.after_match().bids.len() + state.after_match().asks.len() < state.bids.len()
            + state.asks.len(),
        0 < state.matched_quantity() <= i32::MAX,
{
    let q = state.matched_quantity();
    lemma_top_filled(OrderType::Buy, state.bids, q);
    lemma_top_filled(OrderType::Sell, state.asks, q);
}

/// A side in good order stays so when its first order trades `q` units and
/// leaves if nothing is left of it.
pub proof fn lemma_top_filled(side: OrderType, s: Seq<Order>, q: int)
    requires
        sorted(side, s),
        all_rest(side, s),
        distinct_ids(s),
        s.len() > 0,
        0 < q <= s[0].quantity,
    ensures
        ({
            let t = if q == s[0].quantity {
                s.drop_first()
            } else {
                s.update(0, s[0].filled_by(q))
            };
            &&& sorted(side, t)
            &&& all_rest(side, t)
            &&& distinct_ids(t)
        }),
        s[0].filled_by(q).wf(),
        q == s[0].quantity ==> s[0].filled_by(q).order_status.is_terminal(),
{
}

/// A crossing pass keeps a book in good order and leaves it uncrossed; it
/// keeps the instrument, and the log as it was, with the orders that were
/// filled behind it.
pub proof fn lemma_settled(state: BookState)
    requires
        state.wf(),
    ensures
        state.settled().wf(),
        !state.settled().crosses(),
        state.settled().pair == state.pair,
        state.settled().closed.len() >= state.closed.len(),
        state.settled().closed.subrange(0, state.closed.len() as int) == state.closed,
        forall|i: int|
            state.closed.len() <= i < state.settled().closed.len() ==> (
            #[trigger] state.settled().closed[i]).order_status == OrderStatus::Filled,
    decreases state.bids.len() + state.asks.len(),
{
    if state.crosses() {
        lemma_after_match_wf(state);
        let after = state.after_match();
        lemma_settled(after);
        let done = state.settled();
        assert forall|i: int| state.closed.len() <= i < done.closed.len() implies (
        #[trigger] done.closed[i]).order_status == OrderStatus::Filled by {
            if i < after.closed.len() {
                assert(done.closed.subrange(0, after.closed.len() as int)[i] == after.closed[i]);
            }
        }
    }
}

/// Every trade of a crossing pass has a positive quantity.
pub proof fn lemma_settlement_positive(state: BookState, first: int)
    requires
        state.wf(),
    ensures
        positive(state.settlement(first)),
    decreases state.bids.len() + state.asks.len(),
{
    if state.crosses() {
        lemma_after_match_wf(state);
        lemma_settlement_positive(state.after_match(), first + 1);
    }
}

/// A crossing pass makes no more trades than orders rest, and numbers them
/// one after the other.
pub proof fn lemma_settlement_numbered(state: BookState, first: int)
    requires
        state.wf(),
        0 <= first,
        first + state.bids.len() + state.asks.len() <= u64::MAX,
    ensures
        state.settlement(first).len() <= state.bids.len() + state.asks.len(),
        forall|i: int|
            0 <= i < state.settlement(first).len() ==> (#[trigger] state.settlement(
                first,
            )[i]).sequence == first + i,
    decreases state.bids.len() + state.asks.len(),
{
    if state.crosses() {
        lemma_after_match_wf(state);
        lemma_settlement_numbered(state.after_match(), first + 1);
    }
}

/// A side that does not hold an id has no quantity open under it.
pub proof fn lemma_quantity_of_absent(s: Seq<Order>, id: u128)
    requires
        !has_id(s, id),
    ensures
        quantity_of(s, id) == 0,
    decreases s.len(),
{
    if s.len() > 0 {
        lemma_quantity_of_absent(s.drop_first(), id);
    }
}

/// The quantity open under an id on a side of resting orders is not negative.
pub proof fn lemma_quantity_of_bounds(side: OrderType, s: Seq<Order>, id: u128)
    requires
        all_rest(side, s),
    ensures
        quantity_of(s, id) >= 0,
    decreases s.len(),
{
    if s.len() > 0 {
        lemma_quantity_of_bounds(side, s.drop_first(), id);
    }
}

/// What one match takes from a side under an id: the matched quantity if the
/// id is that of the side's first order, and nothing otherwise.
proof fn lemma_top_filled_quantity(s: Seq<Order>, q: int, id: u128)
    requires
        s.len() > 0,
        0 < q <= s[0].quantity,
    ensures
        ({
            let t = if q == s[0].quantity {
                s.drop_first()
            } else {
                s.update(0, s[0].filled_by(q))
            };
            quantity_of(s, id) - quantity_of(t, id) == if s[0].id == id {
                q
            } else {
                0
            }
        }),
{
    if q != s[0].quantity {
        let t = s.update(0, s[0].filled_by(q));
        assert(t.drop_first() =~= s.drop_first());
    }
}

/// Quantity is conserved: what an order trades in a crossing pass is what it
/// had open before the pass less what it has open after it, and neither of
/// the two is negative.
pub proof fn lemma_settlement_conserves(state: BookState, first: int, id: u128)
    requires
        state.wf(),
    ensures
        traded(state.settlement(first), id) == state.open_quantity(id)
            - state.settled().open_quantity(id),
        0 <= state.settled().open_quantity(id) <= state.open_quantity(id),
    decreases state.bids.len() + state.asks.len(),
{
    lemma_quantity_of_bounds(OrderType::Buy, state.bids, id);
    lemma_quantity_of_bounds(OrderType::Sell, state.asks, id);
    if state.crosses() {
        lemma_after_match_wf(state);
        let after = state.after_match();
        let q = state.matched_quantity();
        lemma_settlement_conserves(after, first + 1, id);
        lemma_top_filled_quantity(state.bids, q, id);
        lemma_top_filled_quantity(state.asks, q, id);
        let all = state.settlement(first);
        assert(all.drop_first() =~= after.settlement(first + 1));
    }
}

/// Two orders trade with each other no more than either of them trades.
pub proof fn lemma_traded_between_bounded(trades: Seq<Trade>, a: u128, b: u128)
    requires
        positive(trades),
    ensures
        0 <= traded_between(trades, a, b) <= traded(trades, a),
        traded_between(trades, a, b) <= traded(trades, b),
    decreases trades.len(),
{
    if trades.len() > 0 {
        lemma_traded_between_bounded(trades.drop_first(), a, b);
    }
}

/// In a crossing pass a buy order and a sell order trade with each other no
/// more than the smaller of what the two had open before the pass.
pub proof fn lemma_matched_pair_bounded(state: BookState, first: int, buy: u128, sell: u128)
    requires
        state.wf(),
    ensures
        traded_between(state.settlement(first), buy, sell) <= state.open_quantity(buy),
        traded_between(state.settlement(first), buy, sell) <= state.open_quantity(sell),
{
    lemma_settlement_positive(state, first);
    lemma_traded_between_bounded(state.settlement(first), buy, sell);
    lemma_settlement_conserves(state, first, buy);
    lemma_settlement_conserves(state, first, sell);
}

/// In a book in good order, the order at any place of a side is the one
/// that rests under its id.
pub proof fn lemma_resting_order_at(state: BookState, side: OrderType, k: int)
    requires
        state.wf(),
        0 <= k < state.side(side).len(),
    ensures
        state.rests(state.side(side)[k].id),
        state.resting_order(state.side(side)[k].id) == state.side(side)[k],
        state.open_quantity(state.side(side)[k].id) == state.side(side)[k].quantity,
{
    let s = state.side(side);
    let id = s[k].id;
    lemma_position_of_unique(s, id, k);
    lemma_quantity_of_at(s, k);
    match side {
        OrderType::Buy => {
            lemma_quantity_of_absent(state.asks, id);
        },
        OrderType::Sell => {
            lemma_quantity_of_absent(state.bids, id);
        },
    }
}

/// On a side without repeated ids, the quantity open under the id of one of
/// its orders is that order's.
proof fn lemma_quantity_of_at(s: Seq<Order>, k: int)
    requires
        distinct_ids(s),
        0 <= k < s.len(),
    ensures
        quantity_of(s, s[k].id) == s[k].quantity,
    decreases s.len(),
{
    let rest = s.drop_first();
    if k == 0 {
        lemma_quantity_of_absent(rest, s[0].id);
    } else {
        lemma_quantity_of_at(rest, k - 1);
    }
}

/// An order that rests after one match rested before it.
proof fn lemma_after_match_rests(state: BookState, id: u128)
    requires
        state.wf(),
        state.crosses(),
        state.after_match().rests(id),
    ensures
        state.rests(id),
{
}

/// An order that rests after a crossing pass rested before it.
pub proof fn lemma_settled_rests(state: BookState, id: u128)
    requires
        state.wf(),
        state.settled().rests(id),
    ensures
        state.rests(id),
    decreases state.bids.len() + state.asks.len(),
{
    if state.crosses() {
        lemma_after_match_wf(state);
        lemma_settled_rests(state.after_match(), id);
        lemma_after_match_rests(state, id);
    }
}

/// Where a resting order stands after a crossing pass. With `t` the quantity
/// it traded in the pass: it has traded no more than it had open; if less,
/// it still rests, reduced by `t` (and partially filled if `t` is not zero);
/// if all of it, it rests no longer and the pass has logged it as filled.
/// Either way its status has not gone back.
pub proof fn lemma_settled_tracks(state: BookState, first: int, id: u128)
    requires
        state.wf(),
        state.rests(id),
    ensures
        ({
            let order = state.resting_order(id);
            let t = traded(state.settlement(first), id);
            let done = state.settled();
            &&& order.id == id
            &&& 0 <= t <= order.quantity
            &&& order.order_status.leads_to(order.after_trading(t).order_status)
            &&& t < order.quantity ==> done.rests(id) && done.resting_order(id)
                == order.after_trading(t)
            &&& t == order.quantity ==> !done.rests(id) && exists|i: int|
                state.closed.len() <= i < done.closed.len() && #[trigger] done.closed[i]
                    == order.after_trading(t)
        }),
    decreases state.bids.len() + state.asks.len(),
{
    let order = state.resting_order(id);
    let side = if has_id(state.bids, id) { OrderType::Buy } else { OrderType::Sell };
    lemma_position_of(state.side(side), id);
    let k = position_of(state.side(side), id);
    lemma_resting_order_at(state, side, k);
    if state.crosses() {
        lemma_after_match_wf(state);
        lemma_settled(state.after_match());
        lemma_settlement_conserves(state.after_match(), first + 1, id);
        let after = state.after_match();
        let done = state.settled();
        let all = state.settlement(first);
        let rest = after.settlement(first + 1);
        assert(all.drop_first() =~= rest);
        lemma_resting_order_at(state, OrderType::Buy, 0);
        lemma_resting_order_at(state, OrderType::Sell, 0);
        let top = state.side(side)[0];
        let other = if side == OrderType::Buy { state.asks[0] } else { state.bids[0] };
        if k == 0 && top.quantity <= other.quantity {
            // the order is filled by this match and leaves its side
            lemma_quantity_of_absent(after.bids, id);
            lemma_quantity_of_absent(after.asks, id);
            if done.rests(id) {
                lemma_settled_rests(after, id);
            }
            let at: int = if side == OrderType::Sell && state.bids[0].quantity
                <= state.asks[0].quantity {
                state.closed.len() as int + 1
            } else {
                state.closed.len() as int
            };
            assert(done.closed.subrange(0, after.closed.len() as int)[at] == after.closed[at]);
        } else if k == 0 {
            // the order is reduced by this match and stays on top of its side
            lemma_resting_order_at(after, side, 0);
            lemma_settled_tracks(after, first + 1, id);
        } else {
            // the order takes no part in this match
            let j = if top.quantity <= other.quantity { k - 1 } else { k };
            lemma_resting_order_at(after, side, j);
            lemma_settled_tracks(after, first + 1, id);
        }
    }
}

/// The order that made the book cross takes in every trade. If the book
/// does not cross without the first order of one side, and that order came
/// after all orders of the other side, then in a crossing pass it is the
/// taker of every trade, each trade is made at the price of the resting
/// order that is its maker, and the pass trades nothing else.
pub proof fn lemma_incoming_takes(state: BookState, first: int, side: OrderType)
    requires
        state.wf(),
        state.side(side).len() > 0,
        !state.without_top(side).crosses(),
        sequenced_below(state.facing(side), state.side(side)[0].sequence as int),
    ensures
        forall|i: int|
            0 <= i < state.settlement(first).len() ==> {
                let trade = #[trigger] state.settlement(first)[i];
                &&& trade.taker_order_id == state.side(side)[0].id
                &&& quotes(state.facing(side), trade.maker_order_id, trade.price)
            },
        volume(state.settlement(first)) == traded(state.settlement(first), state.side(side)[0].id),
    decreases state.bids.len() + state.asks.len(),
{
    let top = state.side(side)[0];
    let all = state.settlement(first);
    if state.crosses() {
        lemma_after_match_wf(state);
        let after = state.after_match();
        let rest = after.settlement(first + 1);
        let maker = state.facing(side)[0];
        assert(all.drop_first() =~= rest);
        if top.quantity <= maker.quantity {
            // the incoming order is filled: what is left does not cross
            assert(volume(rest) == 0 && traded(rest, top.id) == 0);
        } else {
            // the maker is filled and the incoming order stays on top
            lemma_incoming_takes(after, first + 1, side);
        }
    }
}

/// A crossing pass respects price-time priority: an order trades in it only
/// when every order ahead of it on its side is filled by it. `i` and `j` are
/// two places on one side, `i` ahead of `j`.
pub proof fn lemma_priority_respected(state: BookState, first: int, side: OrderType, i: int, j: int)
    requires
        state.wf(),
        0 <= i < j < state.side(side).len(),
        traded(state.settlement(first), state.side(side)[j].id) > 0,
    ensures
        traded(state.settlement(first), state.side(side)[i].id) == state.side(side)[i].quantity,
    decreases state.bids.len() + state.asks.len(),
{
    let s = state.side(side);
    if state.crosses() {
        lemma_after_match_wf(state);
        let after = state.after_match();
        let all = state.settlement(first);
        let rest = after.settlement(first + 1);
        let top = s[0];
        let maker = state.facing(side)[0];
        assert(all.drop_first() =~= rest);
        if top.quantity <= maker.quantity {
            if i == 0 {
                lemma_quantity_of_absent(after.bids, top.id);
                lemma_quantity_of_absent(after.asks, top.id);
                lemma_settlement_conserves(after, first + 1, top.id);
            } else {
                lemma_priority_respected(after, first + 1, side, i - 1, j - 1);
            }
        } else {
            lemma_priority_respected(after, first + 1, side, i, j);
        }
    }
}

/// Both orders of every trade of a crossing pass rested in the book before
/// the pass.
pub proof fn lemma_settlement_parties(state: BookState, first: int)
    requires
        state.wf(),
    ensures
        forall|i: int|
            0 <= i < state.settlement(first).len() ==> state.rests(
                (#[trigger] state.settlement(first)[i]).maker_order_id,
            ) && state.rests(state.settlement(first)[i].taker_order_id),
    decreases state.bids.len() + state.asks.len(),
{
    if state.crosses() {
        lemma_after_match_wf(state);
        let after = state.after_match();
        // naming the later trades lets the claim about them be used here
        let rest = after.settlement(first + 1);
        lemma_settlement_parties(after, first + 1);
    }
}

/// An order that came after every order of the other side gives no trade its
/// price: in a crossing pass it is never the maker, so it is the taker of
/// every trade it takes part in. `k` is the place of the order on its side.
pub proof fn lemma_latest_never_makes(state: BookState, first: int, side: OrderType, k: int)
    requires
        state.wf(),
        0 <= k < state.side(side).len(),
        sequenced_below(state.facing(side), state.side(side)[k].sequence as int),
    ensures
        forall|i: int|
            0 <= i < state.settlement(first).len() ==> (#[trigger] state.settlement(
                first,
            )[i]).maker_order_id != state.side(side)[k].id,
    decreases state.bids.len() + state.asks.len(),
{
    if state.crosses() {
        lemma_after_match_wf(state);
        let after = state.after_match();
        // naming the later trades lets the claim about them be used here
        let rest = after.settlement(first + 1);
        let top = state.side(side)[0];
        let other = state.facing(side)[0];
        if k == 0 && top.quantity <= other.quantity {
            // the order is filled by this match: no later trade can name it
            lemma_settlement_parties(after, first + 1);
            lemma_resting_order_at(state, side, 0);
            lemma_filled_top_leaves(state, side);
        } else {
            let j = if top.quantity <= other.quantity { k - 1 } else { k };
            lemma_latest_never_makes(after, first + 1, side, j);
        }
    }
}

/// The first order of a side rests no longer once a match has filled it.
proof fn lemma_filled_top_leaves(state: BookState, side: OrderType)
    requires
        state.wf(),
        state.crosses(),
        state.side(side)[0].quantity <= state.facing(side)[0].quantity,
    ensures
        !state.after_match().rests(state.side(side)[0].id),
{
    let after = state.after_match();
    let id = state.side(side)[0].id;
    if after.rests(id) {
        if has_id(after.bids, id) {
        } else {
        }
    }
}

} // verus!
