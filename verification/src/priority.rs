//! Price-time priority: which of two orders on one side is served first, and
//! where a new order enters a side that is kept in that order.

use crate::order::{Order, OrderType};
use sorted_insert::SortedInsertBy;
use vstd::prelude::*;

verus! {

/// Whether `a` is served no later than `b` on the given side: at a better
/// price (higher for a buy, lower for a sell), or at the same price with a
/// sequence that is not later.
pub open spec fn ranks_before(side: OrderType, a: Order, b: Order) -> bool {
    match side {
        OrderType::Buy => a.price > b.price || (a.price == b.price && a.sequence <= b.sequence),
        OrderType::Sell => a.price < b.price || (a.price == b.price && a.sequence <= b.sequence),
    }
}

/// Whether the price `a` is at least as good as the price `b` on the given
/// side: no lower for a buy, no higher for a sell.
pub open spec fn no_worse(side: OrderType, a: i32, b: i32) -> bool {
    match side {
        OrderType::Buy => a >= b,
        OrderType::Sell => a <= b,
    }
}

/// Whether a side is in priority order, best first.
pub open spec fn sorted(side: OrderType, s: Seq<Order>) -> bool {
    forall|i: int, j: int|
        #![trigger s[i], s[j]]
        0 <= i < j < s.len() ==> ranks_before(side, s[i], s[j])
}

/// Where `order` enters `s`: behind the last order that ranks before it, or
/// in front when there is none.
pub open spec fn insert_position(side: OrderType, s: Seq<Order>, order: Order) -> int
    decreases s.len(),
{
    if s.len() == 0 {
        0
    } else if ranks_before(side, s.last(), order) {
        s.len() as int
    } else {
        insert_position(side, s.drop_last(), order)
    }
}

/// The side `s` after `order` has entered it.
pub open spec fn with_order(side: OrderType, s: Seq<Order>, order: Order) -> Seq<Order> {
    s.insert(insert_position(side, s, order), order)
}

/// The executable form of `ranks_before`.
pub fn rests_before(side: OrderType, a: &Order, b: &Order) -> (r: bool)
    ensures
        r == ranks_before(side, *a, *b),
{
    match side {
        OrderType::Buy => a.price > b.price || (a.price == b.price && a.sequence <= b.sequence),
        OrderType::Sell => a.price < b.price || (a.price == b.price && a.sequence <= b.sequence),
    }
}

/// The entry position lies within the side, the order just in front of it
/// ranks before the new one, and none from it onwards does.
pub proof fn lemma_insert_position(side: OrderType, s: Seq<Order>, order: Order)
    ensures
        0 <= insert_position(side, s, order) <= s.len(),
        insert_position(side, s, order) > 0 ==> ranks_before(
            side,
            s[insert_position(side, s, order) - 1],
            order,
        ),
        forall|j: int|
            insert_position(side, s, order) <= j < s.len() ==> !ranks_before(
                side,
                #[trigger] s[j],
                order,
            ),
    decreases s.len(),
{
    if s.len() > 0 && !ranks_before(side, s.last(), order) {
        let front = s.drop_last();
        lemma_insert_position(side, front, order);
        let p = insert_position(side, front, order);
        assert forall|j: int| p <= j < s.len() implies !ranks_before(
            side,
            #[trigger] s[j],
            order,
        ) by {
            if j < front.len() {
                assert(front[j] == s[j]);
            }
        }
    }
}

/// Only one position has the three properties of `lemma_insert_position`.
pub proof fn lemma_insert_position_unique(side: OrderType, s: Seq<Order>, order: Order, p: int)
    requires
        0 <= p <= s.len(),
        p > 0 ==> ranks_before(side, s[p - 1], order),
        forall|j: int| p <= j < s.len() ==> !ranks_before(side, #[trigger] s[j], order),
    ensures
        p == insert_position(side, s, order),
{
    lemma_insert_position(side, s, order);
}

/// A side in priority order stays so when an order enters it.
pub proof fn lemma_with_order_sorted(side: OrderType, s: Seq<Order>, order: Order)
    requires
        sorted(side, s),
    ensures
        sorted(side, with_order(side, s, order)),
{
    lemma_insert_position(side, s, order);
}

/// Calls `sorted_insert::SortedInsertBy::sorted_insert_by` on the vector, with
/// `rests_before` for the given side as the test. The method looks from the
/// back for the last element that passes the test against the new one, puts
/// the new one right behind it (in front of all when none passes), and
/// returns that index. The contract says this and nothing more.
#[verifier::external_body]
fn sorted_insert(v: &mut Vec<Order>, side: OrderType, order: Order) -> (index: usize)
    ensures
        index <= old(v)@.len(),
        index > 0 ==> ranks_before(side, old(v)@[index - 1], order),
        forall|j: int|
            index <= j < old(v)@.len() ==> !ranks_before(side, #[trigger] old(v)@[j], order),
        final(v)@ == old(v)@.insert(index as int, order),
{
    v.sorted_insert_by(order, |e, n| rests_before(side, e, n))
}

/// Lets `order` enter the side at the position its priority gives it, and
/// returns that position.
pub fn enter(v: &mut Vec<Order>, side: OrderType, order: Order) -> (index: usize)
    ensures
        index == insert_position(side, old(v)@, order),
        final(v)@ == with_order(side, old(v)@, order),
        sorted(side, old(v)@) ==> sorted(side, final(v)@),
{
    let index: usize = sorted_insert(v, side, order);
    proof {
        lemma_insert_position_unique(side, old(v)@, order, index as int);
        if sorted(side, old(v)@) {
            lemma_with_order_sorted(side, old(v)@, order);
        }
    }
    index
}

} // verus!
