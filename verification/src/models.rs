//! Domain records for carts, cart lines and products.
//!
//! Identifiers are held as plain 128-bit integers, prices as integer
//! minor units, and timestamps as seconds; the surrounding application
//! converts between these and its own richer types.

use crate::strutil::str_eq;
use vstd::prelude::*;
use vstd::string::StringExecFns;

verus! {

/// Lifecycle of a shopping cart. Only an `Open` cart may have its line
/// items changed; the other statuses are terminal and immutable.
#[derive(Clone, Copy, Debug, PartialEq, Eq, Structural)]
pub enum CartStatus {
    Open,
    Refund,
    Paid,
    FOC,
}

impl CartStatus {
    /// The canonical display name of a status.
    pub open spec fn label_spec(self) -> Seq<char> {
        match self {
            CartStatus::Open => "Open"@,
            CartStatus::Refund => "Refund"@,
            CartStatus::Paid => "Paid"@,
            CartStatus::FOC => "FOC"@,
        }
    }

    /// Returns the display name of this status.
    pub fn label(&self) -> (r: String)
        ensures
            r@ == self.label_spec(),
    {
        match self {
            CartStatus::Open => String::from_str("Open"),
            CartStatus::Refund => String::from_str("Refund"),
            CartStatus::Paid => String::from_str("Paid"),
            CartStatus::FOC => String::from_str("FOC"),
        }
    }

    /// The status denoted by `s`, accepting the capitalised and the
    /// lower-case spelling of each name.
    pub open spec fn from_str_spec(s: Seq<char>) -> Result<CartStatus, ()> {
        if s == "Open"@ || s == "open"@ {
            Ok(CartStatus::Open)
        } else if s == "Refund"@ || s == "refund"@ {
            Ok(CartStatus::Refund)
        } else if s == "Paid"@ || s == "paid"@ {
            Ok(CartStatus::Paid)
        } else if s == "FOC"@ || s == "foc"@ {
            Ok(CartStatus::FOC)
        } else {
            Err(())
        }
    }

    /// Parses a status name.
    pub fn from_str(s: &str) -> (r: Result<CartStatus, ()>)
        ensures
            r == CartStatus::from_str_spec(s@),
    {
        if str_eq(s, "Open") || str_eq(s, "open") {
            Ok(CartStatus::Open)
        } else if str_eq(s, "Refund") || str_eq(s, "refund") {
            Ok(CartStatus::Refund)
        } else if str_eq(s, "Paid") || str_eq(s, "paid") {
            Ok(CartStatus::Paid)
        } else if str_eq(s, "FOC") || str_eq(s, "foc") {
            Ok(CartStatus::FOC)
        } else {
            Err(())
        }
    }
}

/// A catalog product together with its available (unreserved) stock.
#[derive(Debug, PartialEq)]
pub struct ProductModel {
    pub id: u128,
    pub name: String,
    /// Unit price in minor currency units.
    pub price: u64,
    /// Stock that is available for new reservations.
    pub quantity: u32,
    pub updated_at: i64,
}

impl Clone for ProductModel {
    fn clone(&self) -> (r: Self)
        ensures
            r == *self,
    {
        ProductModel {
            id: self.id,
            name: self.name.clone(),
            price: self.price,
            quantity: self.quantity,
            updated_at: self.updated_at,
        }
    }
}

/// A cart record. The total amount of a cart is derived from its lines
/// and is therefore not stored here.
#[derive(Clone, Copy, Debug, PartialEq, Eq, Structural)]
pub struct CartModel {
    pub id: u128,
    pub user_id: u128,
    pub status: CartStatus,
    pub created_at: i64,
    pub updated_at: i64,
}

/// A cart line: the reservation of `quantity` units of one product by
/// one cart, with the unit price snapshotted at reservation time.
#[derive(Clone, Copy, Debug, PartialEq, Eq, Structural)]
pub struct CartItemModel {
    pub cart_id: u128,
    pub product_id: u128,
    /// Positive while the line exists; a line never stores quantity 0.
    pub quantity: u32,
    /// Price per unit in minor currency units, fixed when reserving.
    pub unit_amount: u64,
    pub created_at: i64,
    pub updated_at: i64,
}

impl CartItemModel {
    /// The amount this line contributes to its cart's total.
    pub open spec fn line_total_spec(self) -> int {
        self.quantity * self.unit_amount
    }

    /// Returns `quantity * unit_amount`, which always fits in a `u128`.
    pub fn line_total(&self) -> (r: u128)
        ensures
            r == self.line_total_spec(),
    {
        proof {
            assert((self.quantity as int) * (self.unit_amount as int) <= (u32::MAX as int) * (
            u64::MAX as int)) by (nonlinear_arith)
                requires
                    self.quantity <= u32::MAX && self.unit_amount <= u64::MAX,
            ;
        }
        (self.quantity as u128) * (self.unit_amount as u128)
    }
}

/// A cart line joined with a snapshot of its product, as produced by
/// the read path.
#[derive(Debug, PartialEq)]
pub struct CartItemWithProductModel {
    pub cart_id: u128,
    pub product_id: u128,
    pub quantity: u32,
    pub unit_amount: u64,
    pub product: ProductModel,
    pub created_at: i64,
    pub updated_at: i64,
}

impl Clone for CartItemWithProductModel {
    fn clone(&self) -> (r: Self)
        ensures
            r == *self,
    {
        CartItemWithProductModel {
            cart_id: self.cart_id,
            product_id: self.product_id,
            quantity: self.quantity,
            unit_amount: self.unit_amount,
            product: self.product.clone(),
            created_at: self.created_at,
            updated_at: self.updated_at,
        }
    }
}

/// The sum of `quantity * unit_amount` over a sequence of joined lines.
pub open spec fn items_total(s: Seq<CartItemWithProductModel>) -> int
    decreases s.len(),
{
    if s.len() == 0 {
        0
    } else {
        items_total(s.drop_last()) + s.last().quantity * s.last().unit_amount
    }
}

/// Every line contributes a non-negative amount to the total.
pub proof fn lemma_items_total_nonneg(s: Seq<CartItemWithProductModel>)
    ensures
        items_total(s) >= 0,
    decreases s.len(),
{
    if s.len() > 0 {
        lemma_items_total_nonneg(s.drop_last());
        assert(s.last().quantity * s.last().unit_amount >= 0) by (nonlinear_arith);
    }
}

/// A full cart view: the cart, its joined lines, and the derived total.
#[derive(Debug, PartialEq)]
pub struct CartWithItemsModel {
    pub id: u128,
    pub user_id: u128,
    pub status: CartStatus,
    /// Sum of the line totals, saturating at `u128::MAX`.
    pub total_amount: u128,
    pub items: Vec<CartItemWithProductModel>,
    pub created_at: i64,
    pub updated_at: i64,
}

impl CartWithItemsModel {
    /// Assembles the view of `cart` from its joined lines, recomputing
    /// the derived total from the lines themselves.
    pub fn new(cart: CartModel, items: Vec<CartItemWithProductModel>) -> (r: Self)
        ensures
            r.id == cart.id,
            r.user_id == cart.user_id,
            r.status == cart.status,
            r.created_at == cart.created_at,
            r.updated_at == cart.updated_at,
            r.items == items,
            r.total_amount == if items_total(items@) <= u128::MAX {
                items_total(items@)
            } else {
                u128::MAX as int
            },
    {
        let mut total: u128 = 0;
        let n = items.len();
        let mut i: usize = 0;
        while i < n
            invariant
                0 <= i <= n == items@.len(),
                total == if items_total(items@.subrange(0, i as int)) <= u128::MAX {
                    items_total(items@.subrange(0, i as int))
                } else {
                    u128::MAX as int
                },
            decreases n - i,
        {
            let item = &items[i];
            proof {
                assert((item.quantity as int) * (item.unit_amount as int) <= (u32::MAX as int) * (
                u64::MAX as int)) by (nonlinear_arith)
                    requires
                        item.quantity <= u32::MAX && item.unit_amount <= u64::MAX,
                ;
                assert(items@.subrange(0, i + 1).drop_last() =~= items@.subrange(0, i as int));
                assert(items@.subrange(0, i + 1).last() == items@[i as int]);
                lemma_items_total_nonneg(items@.subrange(0, i as int));
            }
            let t: u128 = (item.quantity as u128) * (item.unit_amount as u128);
            if total > u128::MAX - t {
                total = u128::MAX;
            } else {
                total = total + t;
            }
            i = i + 1;
        }
        proof {
            assert(items@.subrange(0, n as int) =~= items@);
        }
        CartWithItemsModel {
            id: cart.id,
            user_id: cart.user_id,
            status: cart.status,
            total_amount: total,
            items,
            created_at: cart.created_at,
            updated_at: cart.updated_at,
        }
    }
}

} // verus!
