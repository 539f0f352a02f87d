//! The error taxonomy of the cart core.
//!
//! Every failure of a reconciler operation is one of these variants;
//! each maps to a stable numeric code and a fixed human-readable
//! message for the transport layer to serialize.

use vstd::prelude::*;
use vstd::string::StringExecFns;

verus! {

/// Why a cart operation was rejected. No partial state change ever
/// accompanies one of these: the operation leaves the store untouched.
#[derive(Clone, Copy, Debug, PartialEq, Eq, Structural)]
pub enum CartError {
    /// The requested quantity was not positive where it had to be.
    InvalidQuantity,
    /// The ledger holds fewer available units than were requested.
    InsufficientStock,
    /// No line exists for the given cart and product.
    ItemNotFound,
    /// The cart is in a terminal status and cannot be changed.
    CartClosed,
    /// A bulk removal was requested with an empty item list.
    NoItems,
    /// A bulk removal named items of more than one cart.
    MixedCarts,
    /// The referenced product or cart does not exist.
    NotFound,
    /// A record with the same identifier already exists.
    DuplicateId,
}

impl CartError {
    /// The numeric response code of this error.
    pub open spec fn code_spec(self) -> u32 {
        match self {
            CartError::InvalidQuantity => 400u32,
            CartError::InsufficientStock => 400u32,
            CartError::ItemNotFound => 404u32,
            CartError::CartClosed => 400u32,
            CartError::NoItems => 400u32,
            CartError::MixedCarts => 400u32,
            CartError::NotFound => 404u32,
            CartError::DuplicateId => 409u32,
        }
    }

    /// Returns the numeric response code of this error.
    pub fn code(&self) -> (r: u32)
        ensures
            r == self.code_spec(),
    {
        match self {
            CartError::InvalidQuantity => 400,
            CartError::InsufficientStock => 400,
            CartError::ItemNotFound => 404,
            CartError::CartClosed => 400,
            CartError::NoItems => 400,
            CartError::MixedCarts => 400,
            CartError::NotFound => 404,
            CartError::DuplicateId => 409,
        }
    }

    /// The fixed message of this error.
    pub open spec fn message_spec(self) -> Seq<char> {
        match self {
            CartError::InvalidQuantity => "Quantity must be > 0"@,
            CartError::InsufficientStock => "Insufficient stock"@,
            CartError::ItemNotFound => "Item not found"@,
            CartError::CartClosed => "Cannot modify a closed cart!"@,
            CartError::NoItems => "No items to remove!"@,
            CartError::MixedCarts => "All items must belong to the same cart!"@,
            CartError::NotFound => "Record not found"@,
            CartError::DuplicateId => "Already exists"@,
        }
    }

    /// Returns the fixed message of this error.
    pub fn message(&self) -> (r: String)
        ensures
            r@ == self.message_spec(),
    {
        match self {
            CartError::InvalidQuantity => String::from_str("Quantity must be > 0"),
            CartError::InsufficientStock => String::from_str("Insufficient stock"),
            CartError::ItemNotFound => String::from_str("Item not found"),
            CartError::CartClosed => String::from_str("Cannot modify a closed cart!"),
            CartError::NoItems => String::from_str("No items to remove!"),
            CartError::MixedCarts => String::from_str("All items must belong to the same cart!"),
            CartError::NotFound => String::from_str("Record not found"),
            CartError::DuplicateId => String::from_str("Already exists"),
        }
    }
}

} // verus!
