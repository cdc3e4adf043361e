//! Orders: what identifies one, and how its remaining quantity and status move.

use crate::error::BookError;
use uuid::Uuid;
use vstd::prelude::*;

verus! {

/// The side of the book an order belongs to.
#[derive(Debug, PartialEq, Eq, Clone, Copy, Structural)]
pub enum OrderType {
    Buy,
    Sell,
}

impl OrderType {
    /// The side that a word names: `buy` or `sell`, and none for any other.
    pub open spec fn named(token: Seq<char>) -> Option<OrderType> {
        if token == "sell"@ {
            Some(OrderType::Sell)
        } else if token == "buy"@ {
            Some(OrderType::Buy)
        } else {
            None
        }
    }

    /// Reads the side from the word that names it. Any word but `buy` and
    /// `sell` is turned down.
    pub fn from_token(token: &str) -> (result: Result<OrderType, BookError>)
        ensures
            match OrderType::named(token@) {
                Some(side) => result == Ok::<OrderType, BookError>(side),
                None => result == Err::<OrderType, BookError>(BookError::InvalidArgument),
            },
    {
        let word: String = token.to_owned();
        if word == "sell".to_owned() {
            Ok(OrderType::Sell)
        } else if word == "buy".to_owned() {
            Ok(OrderType::Buy)
        } else {
            Err(BookError::InvalidArgument)
        }
    }
}

/// Where an order stands in its life.
#[derive(Debug, PartialEq, Eq, Clone, Copy, Structural)]
pub enum OrderStatus {
    Active,
    PartiallyFilled,
    Filled,
    Cancelled,
}

impl OrderStatus {
    /// Active and partially filled orders can still trade.
    pub open spec fn is_live(self) -> bool {
        self == OrderStatus::Active || self == OrderStatus::PartiallyFilled
    }

    /// Filled and cancelled orders never change again.
    pub open spec fn is_terminal(self) -> bool {
        self == OrderStatus::Filled || self == OrderStatus::Cancelled
    }

    /// How far along the fill path a status lies.
    pub open spec fn rank(self) -> int {
        match self {
            OrderStatus::Active => 0,
            OrderStatus::PartiallyFilled => 1,
            OrderStatus::Filled => 2,
            OrderStatus::Cancelled => 2,
        }
    }

    /// Whether an order in status `self` may later be seen in status `next`:
    /// along Active, PartiallyFilled, Filled it only moves forward, a live
    /// order may be cancelled, and a terminal one stays as it is.
    pub open spec fn leads_to(self, next: OrderStatus) -> bool {
        if self.is_terminal() {
            next == self
        } else {
            self.rank() <= next.rank()
        }
    }
}

/// Whether `id` carries the marks of a randomly drawn identifier: version 4
/// in bits 76 to 79 and the variant `10` in bits 62 and 63.
pub open spec fn is_random_id(id: u128) -> bool {
    (id >> 76) & 0xf == 4 && (id >> 62) & 0x3 == 2
}

/// Draws an identifier with `uuid::Uuid::new_v4` and hands it out as the
/// 128-bit number that `uuid::Uuid::as_u128` gives for it. Which identifier
/// comes is left open; only the version and variant marks that every such
/// identifier carries are claimed. The call panics when the operating system
/// gives it no random bytes.
#[verifier::external_body]
fn fresh_id() -> (id: u128)
    ensures
        is_random_id(id),
{
    Uuid::new_v4().as_u128()
}

/// One order for the instrument.
#[derive(Debug, PartialEq, Eq, Clone, Copy, Structural)]
pub struct Order {
    /// Identifies the order; never changes.
    pub id: u128,
    /// The limit price; never changes.
    pub price: i32,
    /// The quantity that is still open.
    pub quantity: i32,
    /// The side; never changes.
    pub order_type: OrderType,
    pub order_status: OrderStatus,
    /// Breaks ties between orders at one price: the lower sequence came first.
    pub sequence: u64,
}

impl Order {
    /// The price is positive, the open quantity is not negative, and it is
    /// zero exactly when the order is filled.
    pub open spec fn wf(self) -> bool {
        &&& self.price > 0
        &&& self.quantity >= 0
        &&& (self.quantity == 0 <==> self.order_status == OrderStatus::Filled)
    }

    /// The order can rest in a book: well formed and live.
    pub open spec fn can_rest(self) -> bool {
        self.wf() && self.order_status.is_live()
    }

    /// The executable form of `can_rest`.
    pub fn check_can_rest(&self) -> (r: bool)
        ensures
            r == self.can_rest(),
    {
        self.price > 0 && self.quantity > 0 && (self.order_status == OrderStatus::Active
            || self.order_status == OrderStatus::PartiallyFilled)
    }

    /// Whether the order is well formed and terminal, as the log wants it.
    pub fn check_closed(&self) -> (r: bool)
        ensures
            r == (self.wf() && self.order_status.is_terminal()),
    {
        self.price > 0 && ((self.order_status == OrderStatus::Filled && self.quantity == 0) || (
        self.order_status == OrderStatus::Cancelled && self.quantity > 0))
    }

    /// The order as it is after `by` units of it have traded.
    pub open spec fn filled_by(self, by: int) -> Order {
        Order {
            quantity: (self.quantity - by) as i32,
            order_status: if self.quantity == by {
                OrderStatus::Filled
            } else {
                OrderStatus::PartiallyFilled
            },
            ..self
        }
    }

    /// The order as it is after `traded` units of it have traded in all, or
    /// as it was when none have.
    pub open spec fn after_trading(self, traded: int) -> Order {
        if traded == 0 {
            self
        } else {
            self.filled_by(traded)
        }
    }

    /// Why `by` units cannot be taken from the order, if they cannot.
    pub open spec fn reduction_refusal(self, by: i32) -> Option<BookError> {
        if self.order_status.is_terminal() {
            Some(BookError::AlreadyTerminal)
        } else if by <= 0 {
            Some(BookError::InvalidArgument)
        } else if by > self.quantity {
            Some(BookError::InvalidReduction)
        } else {
            None
        }
    }

    /// The order after a request to take `by` units from it.
    pub open spec fn reduced(self, by: i32) -> Order {
        if self.reduction_refusal(by) is None {
            self.filled_by(by as int)
        } else {
            self
        }
    }

    /// The order after a request to withdraw it.
    pub open spec fn cancelled(self) -> Order {
        if self.order_status.is_live() {
            self.withdrawn()
        } else {
            self
        }
    }

    /// The order as it is after a cancellation.
    pub open spec fn withdrawn(self) -> Order {
        Order { order_status: OrderStatus::Cancelled, ..self }
    }

    /// An active order under a fresh random id, with the whole quantity open.
    /// Its sequence is zero until an engine assigns one.
    pub fn new(quantity: i32, price: i32, order_type: OrderType) -> (order: Order)
        ensures
            is_random_id(order.id),
            order == (Order {
                id: order.id,
                price,
                quantity,
                order_type,
                order_status: OrderStatus::Active,
                sequence: 0,
            }),
    {
        let id: u128 = fresh_id();
        Order::with_id(id, quantity, price, order_type)
    }

    /// An active order with the given identity and the whole quantity open.
    /// Its sequence is zero until an engine assigns one.
    pub fn with_id(id: u128, quantity: i32, price: i32, order_type: OrderType) -> (order: Order)
        ensures
            order == (Order {
                id,
                price,
                quantity,
                order_type,
                order_status: OrderStatus::Active,
                sequence: 0,
            }),
    {
        Order { id, price, quantity, order_type, order_status: OrderStatus::Active, sequence: 0 }
    }

    /// Takes `by` units from the open quantity: an order with nothing left
    /// is filled, any other partially filled. A terminal order is left as it
    /// is, and so is a live one when `by` is not positive or exceeds what is
    /// open.
    pub fn reduce(&mut self, by: i32) -> (result: Result<(), BookError>)
        ensures
            *final(self) == old(self).reduced(by),
            match old(self).reduction_refusal(by) {
                Some(e) => result == Err::<(), BookError>(e),
                None => result is Ok,
            },
            old(self).wf() ==> final(self).wf(),
            old(self).order_status.leads_to(final(self).order_status),
    {
        match self.order_status {
            OrderStatus::Filled | OrderStatus::Cancelled => {
                return Err(BookError::AlreadyTerminal);
            },
            _ => {},
        }
        if by <= 0 {
            return Err(BookError::InvalidArgument);
        }
        if by > self.quantity {
            return Err(BookError::InvalidReduction);
        }
        self.quantity = self.quantity - by;
        if self.quantity == 0 {
            self.order_status = OrderStatus::Filled;
        } else {
            self.order_status = OrderStatus::PartiallyFilled;
        }
        Ok(())
    }

    /// Withdraws a live order. A terminal order is left as it is.
    pub fn cancel(&mut self) -> (result: Result<(), BookError>)
        ensures
            *final(self) == old(self).cancelled(),
            result is Ok <==> old(self).order_status.is_live(),
            result is Err ==> result == Err::<(), BookError>(BookError::AlreadyTerminal),
            old(self).wf() ==> final(self).wf(),
            old(self).order_status.leads_to(final(self).order_status),
    {
        match self.order_status {
            OrderStatus::Filled | OrderStatus::Cancelled => Err(BookError::AlreadyTerminal),
            _ => {
                self.order_status = OrderStatus::Cancelled;
                Ok(())
            },
        }
    }
}

/// What can be asked of an order.
#[derive(Debug, Clone, Copy, PartialEq, Eq, Structural)]
pub enum OrderOp {
    /// Take this many units from the open quantity.
    Reduce(i32),
    /// Withdraw the order.
    Cancel,
}

impl Order {
    /// The order after one request, granted or not.
    pub open spec fn step(self, op: OrderOp) -> Order {
        match op {
            OrderOp::Reduce(by) => self.reduced(by),
            OrderOp::Cancel => self.cancelled(),
        }
    }

    /// The order after a series of requests.
    pub open spec fn after(self, ops: Seq<OrderOp>) -> Order
        decreases ops.len(),
    {
        if ops.len() == 0 {
            self
        } else {
            self.after(ops.drop_last()).step(ops.last())
        }
    }
}

/// A status that follows one that follows a third follows the third.
pub proof fn lemma_leads_to_transitive(a: OrderStatus, b: OrderStatus, c: OrderStatus)
    requires
        a.leads_to(b),
        b.leads_to(c),
    ensures
        a.leads_to(c),
{
}

/// No request changes what identifies an order, and none takes its status
/// back: whatever is asked of an order and in whatever order, its status
/// only moves forward along Active, PartiallyFilled, Filled, and a cancelled
/// order stays cancelled. `early` and `late` are two moments in the series.
pub proof fn lemma_status_only_advances(order: Order, ops: Seq<OrderOp>, early: int, late: int)
    requires
        0 <= early <= late <= ops.len(),
    ensures
        order.after(ops.take(early)).order_status.leads_to(
            order.after(ops.take(late)).order_status,
        ),
        order.after(ops.take(early)).order_status == OrderStatus::Cancelled ==> order.after(
            ops.take(late),
        ).order_status == OrderStatus::Cancelled,
        order.after(ops.take(late)).id == order.id,
        order.after(ops.take(late)).price == order.price,
        order.after(ops.take(late)).order_type == order.order_type,
        order.wf() ==> order.after(ops.take(late)).wf(),
    decreases late,
{
    if late == 0 {
    } else {
        assert(ops.take(late).drop_last() =~= ops.take(late - 1));
        if early < late {
            lemma_status_only_advances(order, ops, early, late - 1);
        } else {
            lemma_status_only_advances(order, ops, late - 1, late - 1);
        }
    }
}

} // verus!
