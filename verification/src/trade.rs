//! Trades: the record of one match between a resting order and one that
//! crossed it.

use vstd::prelude::*;

verus! {

/// One execution. It is never changed after it has been emitted.
#[derive(Debug, PartialEq, Eq, Clone, Copy, Structural)]
pub struct Trade {
    /// The order that gave its price.
    pub maker_order_id: u128,
    /// The order that crossed the maker.
    pub taker_order_id: u128,
    /// The maker's limit price.
    pub price: i32,
    /// The quantity that changed hands.
    pub quantity: i32,
    /// The place of this trade among all trades.
    pub sequence: u64,
}

impl Trade {
    /// Whether the order with this id took part in the trade.
    pub open spec fn involves(self, id: u128) -> bool {
        self.maker_order_id == id || self.taker_order_id == id
    }

    /// Whether the trade was made between these two orders.
    pub open spec fn between(self, a: u128, b: u128) -> bool {
        (self.maker_order_id == a && self.taker_order_id == b) || (self.maker_order_id == b
            && self.taker_order_id == a)
    }
}

/// The quantity that the order with this id traded in `trades`.
pub open spec fn traded(trades: Seq<Trade>, id: u128) -> int
    decreases trades.len(),
{
    if trades.len() == 0 {
        0
    } else {
        (if trades[0].involves(id) {
            trades[0].quantity as int
        } else {
            0
        }) + traded(trades.drop_first(), id)
    }
}

/// The quantity that changed hands between these two orders in `trades`.
pub open spec fn traded_between(trades: Seq<Trade>, a: u128, b: u128) -> int
    decreases trades.len(),
{
    if trades.len() == 0 {
        0
    } else {
        (if trades[0].between(a, b) {
            trades[0].quantity as int
        } else {
            0
        }) + traded_between(trades.drop_first(), a, b)
    }
}

/// The quantity that changed hands in `trades` in all.
pub open spec fn volume(trades: Seq<Trade>) -> int
    decreases trades.len(),
{
    if trades.len() == 0 {
        0
    } else {
        trades[0].quantity + volume(trades.drop_first())
    }
}

/// All quantities in `trades` are positive.
pub open spec fn positive(trades: Seq<Trade>) -> bool {
    forall|i: int| 0 <= i < trades.len() ==> (#[trigger] trades[i]).quantity > 0
}

} // verus!
