//! The ways in which a request to the book can be turned down.

use crate::order::OrderType;
use vstd::prelude::*;

verus! {

/// Why an order, a book or an engine declined a request.
#[derive(Debug, Clone, Copy, PartialEq, Eq, Structural)]
pub enum BookError {
    /// The order was handed to the side it does not belong to.
    WrongSide { expected: OrderType },
    /// The book already holds an order with this id.
    DuplicateOrder,
    /// No resting order has the id that was named.
    NotFound,
    /// The order is filled or cancelled and accepts no further change.
    AlreadyTerminal,
    /// More was to be taken from an order than it has left.
    InvalidReduction,
    /// A price or a quantity is not positive, or an order is otherwise malformed.
    InvalidArgument,
    /// The store failed to read or to write.
    StorageError,
    /// A stored snapshot does not describe a book.
    DeserializationError,
    /// The book was changed, but the change could not be stored.
    PersistenceFailed,
    /// The counter that numbers orders or trades has run out.
    SequenceExhausted,
}

impl BookError {
    /// The text of each error.
    pub open spec fn text(self) -> Seq<char> {
        match self {
            BookError::WrongSide { expected: OrderType::Buy } =>
                "Invalid order type, expected Buy order type but Sell provided"@,
            BookError::WrongSide { expected: OrderType::Sell } =>
                "Invalid order type, expected Sell order type but Buy provided"@,
            BookError::DuplicateOrder => "An order with this id is already in the book"@,
            BookError::NotFound => "No resting order has this id"@,
            BookError::AlreadyTerminal => "The order is already filled or cancelled"@,
            BookError::InvalidReduction => "The reduction exceeds the remaining quantity"@,
            BookError::InvalidArgument => "Price and quantity must be positive"@,
            BookError::StorageError => "The store could not be read or written"@,
            BookError::DeserializationError => "The stored snapshot is malformed"@,
            BookError::PersistenceFailed => "The change was applied but could not be stored"@,
            BookError::SequenceExhausted => "The sequence counter is exhausted"@,
        }
    }

    /// Renders the error for a reader.
    pub fn message(&self) -> (s: String)
        ensures
            s@ == self.text(),
    {
        match self {
            BookError::WrongSide { expected: OrderType::Buy } =>
                "Invalid order type, expected Buy order type but Sell provided".to_owned(),
            BookError::WrongSide { expected: OrderType::Sell } =>
                "Invalid order type, expected Sell order type but Buy provided".to_owned(),
            BookError::DuplicateOrder => "An order with this id is already in the book".to_owned(),
            BookError::NotFound => "No resting order has this id".to_owned(),
            BookError::AlreadyTerminal => "The order is already filled or cancelled".to_owned(),
            BookError::InvalidReduction =>
                "The reduction exceeds the remaining quantity".to_owned(),
            BookError::InvalidArgument => "Price and quantity must be positive".to_owned(),
            BookError::StorageError => "The store could not be read or written".to_owned(),
            BookError::DeserializationError => "The stored snapshot is malformed".to_owned(),
            BookError::PersistenceFailed =>
                "The change was applied but could not be stored".to_owned(),
            BookError::SequenceExhausted => "The sequence counter is exhausted".to_owned(),
        }
    }
}

} // verus!
