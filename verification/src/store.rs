//! The transactional store: products, carts and cart lines, together
//! with the well-formedness invariant that every reconciler operation
//! preserves.
//!
//! The central accounting fact is that for every product, the stock
//! available in the ledger plus the stock reserved by cart lines is
//! constant: every unit is either available or reserved by exactly one
//! cart line, never both and never neither.

use crate::errors::CartError;
use crate::models::{CartItemModel, CartModel, CartStatus, ProductModel};
use vstd::prelude::*;

verus! {

// ---------------------------------------------------------------------------
// Spec-level views of the record sequences
// ---------------------------------------------------------------------------

/// No two products share an identifier.
pub open spec fn product_ids_distinct(s: Seq<ProductModel>) -> bool {
    forall|i: int, j: int| 0 <= i < j < s.len() ==> s[i].id != s[j].id
}

/// No two carts share an identifier.
pub open spec fn cart_ids_distinct(s: Seq<CartModel>) -> bool {
    forall|i: int, j: int| 0 <= i < j < s.len() ==> s[i].id != s[j].id
}

/// No two lines share the composite key `(cart_id, product_id)`.
pub open spec fn line_keys_distinct(s: Seq<CartItemModel>) -> bool {
    forall|i: int, j: int|
        0 <= i < j < s.len() ==> !(s[i].cart_id == s[j].cart_id && s[i].product_id
            == s[j].product_id)
}

/// Every stored line reserves a positive quantity.
pub open spec fn lines_positive(s: Seq<CartItemModel>) -> bool {
    forall|i: int| 0 <= i < s.len() ==> (#[trigger] s[i]).quantity > 0
}

/// A user has at most one cart in the `Open` status.
pub open spec fn one_open_cart_per_user(s: Seq<CartModel>) -> bool {
    forall|i: int, j: int|
        0 <= i < j < s.len() ==> !(s[i].user_id == s[j].user_id && s[i].status is Open
            && s[j].status is Open)
}

pub open spec fn has_product(s: Seq<ProductModel>, id: u128) -> bool {
    exists|i: int| 0 <= i < s.len() && (#[trigger] s[i]).id == id
}

/// The index of the product with identifier `id`; meaningful only when
/// `has_product(s, id)` holds and the identifiers are distinct.
pub open spec fn product_index(s: Seq<ProductModel>, id: u128) -> int {
    choose|i: int| 0 <= i < s.len() && (#[trigger] s[i]).id == id
}

pub open spec fn has_cart(s: Seq<CartModel>, id: u128) -> bool {
    exists|i: int| 0 <= i < s.len() && (#[trigger] s[i]).id == id
}

pub open spec fn cart_index(s: Seq<CartModel>, id: u128) -> int {
    choose|i: int| 0 <= i < s.len() && (#[trigger] s[i]).id == id
}

pub open spec fn has_open_cart(s: Seq<CartModel>, user_id: u128) -> bool {
    exists|i: int|
        0 <= i < s.len() && (#[trigger] s[i]).user_id == user_id && s[i].status is Open
}

pub open spec fn open_cart_index(s: Seq<CartModel>, user_id: u128) -> int {
    choose|i: int|
        0 <= i < s.len() && (#[trigger] s[i]).user_id == user_id && s[i].status is Open
}

pub open spec fn has_line(s: Seq<CartItemModel>, cart_id: u128, product_id: u128) -> bool {
    exists|i: int|
        0 <= i < s.len() && (#[trigger] s[i]).cart_id == cart_id && s[i].product_id == product_id
}

pub open spec fn line_index(s: Seq<CartItemModel>, cart_id: u128, product_id: u128) -> int {
    choose|i: int|
        0 <= i < s.len() && (#[trigger] s[i]).cart_id == cart_id && s[i].product_id == product_id
}

/// What a single line contributes to the reservation count of `pid`.
pub open spec fn line_contrib(l: CartItemModel, pid: u128) -> int {
    if l.product_id == pid {
        l.quantity as int
    } else {
        0
    }
}

/// Total quantity of product `pid` reserved by the lines of `s`,
/// across all carts.
pub open spec fn reserved_for(s: Seq<CartItemModel>, pid: u128) -> int
    decreases s.len(),
{
    if s.len() == 0 {
        0
    } else {
        reserved_for(s.drop_last(), pid) + line_contrib(s.last(), pid)
    }
}

/// Available stock of product `pid`, or 0 when the product is unknown.
pub open spec fn avail_of(s: Seq<ProductModel>, pid: u128) -> int {
    if has_product(s, pid) {
        s[product_index(s, pid)].quantity as int
    } else {
        0
    }
}

// ---------------------------------------------------------------------------
// Lemmas about reservation counts
// ---------------------------------------------------------------------------

pub proof fn lemma_reserved_nonneg(s: Seq<CartItemModel>, pid: u128)
    ensures
        reserved_for(s, pid) >= 0,
    decreases s.len(),
{
    if s.len() > 0 {
        lemma_reserved_nonneg(s.drop_last(), pid);
    }
}

/// Replacing one line changes the reservation count by the difference
/// of the contributions of the new and the old line.
pub proof fn lemma_reserved_update(s: Seq<CartItemModel>, i: int, l: CartItemModel, pid: u128)
    requires
        0 <= i < s.len(),
    ensures
        reserved_for(s.update(i, l), pid) == reserved_for(s, pid) - line_contrib(s[i], pid)
            + line_contrib(l, pid),
    decreases s.len(),
{
    if i == s.len() - 1 {
        assert(s.update(i, l).drop_last() =~= s.drop_last());
        assert(s.update(i, l).last() == l);
    } else {
        assert(s.update(i, l).drop_last() =~= s.drop_last().update(i, l));
        assert(s.update(i, l).last() == s.last());
        lemma_reserved_update(s.drop_last(), i, l, pid);
    }
}

/// Removing one line lowers the reservation count by its contribution.
pub proof fn lemma_reserved_remove(s: Seq<CartItemModel>, i: int, pid: u128)
    requires
        0 <= i < s.len(),
    ensures
        reserved_for(s.remove(i), pid) == reserved_for(s, pid) - line_contrib(s[i], pid),
    decreases s.len(),
{
    if i == s.len() - 1 {
        assert(s.remove(i) =~= s.drop_last());
    } else {
        assert(s.remove(i).drop_last() =~= s.drop_last().remove(i));
        assert(s.remove(i).last() == s.last());
        lemma_reserved_remove(s.drop_last(), i, pid);
    }
}

/// Appending one line raises the reservation count by its contribution.
pub proof fn lemma_reserved_push(s: Seq<CartItemModel>, l: CartItemModel, pid: u128)
    ensures
        reserved_for(s.push(l), pid) == reserved_for(s, pid) + line_contrib(l, pid),
{
    assert(s.push(l).drop_last() =~= s);
    assert(s.push(l).last() == l);
}

/// A single line never reserves more of a product than all lines
/// together.
pub proof fn lemma_line_le_reserved(s: Seq<CartItemModel>, i: int, pid: u128)
    requires
        0 <= i < s.len(),
        s[i].product_id == pid,
    ensures
        s[i].quantity <= reserved_for(s, pid),
    decreases s.len(),
{
    lemma_reserved_nonneg(s.drop_last(), pid);
    if i == s.len() - 1 {
    } else {
        lemma_line_le_reserved(s.drop_last(), i, pid);
    }
}

/// A product that no line references has no reserved stock.
pub proof fn lemma_reserved_zero(s: Seq<CartItemModel>, pid: u128)
    requires
        forall|i: int| 0 <= i < s.len() ==> (#[trigger] s[i]).product_id != pid,
    ensures
        reserved_for(s, pid) == 0,
    decreases s.len(),
{
    if s.len() > 0 {
        lemma_reserved_zero(s.drop_last(), pid);
    }
}

/// Reservations split over a predicate: the lines that satisfy it and
/// the lines that do not together account for the whole count.
pub proof fn lemma_reserved_split(s: Seq<CartItemModel>, pred: spec_fn(CartItemModel) -> bool, pid: u128)
    ensures
        reserved_for(s, pid) == reserved_for(s.filter(pred), pid) + reserved_for(
            s.filter(|l: CartItemModel| !pred(l)),
            pid,
        ),
    decreases s.len(),
{
    reveal(Seq::filter);
    if s.len() == 0 {
    } else {
        lemma_reserved_split(s.drop_last(), pred, pid);
        if pred(s.last()) {
            assert(s.filter(pred) == s.drop_last().filter(pred).push(s.last()));
            lemma_reserved_push(s.drop_last().filter(pred), s.last(), pid);
            assert(s.filter(|l: CartItemModel| !pred(l)) == s.drop_last().filter(
                |l: CartItemModel| !pred(l),
            ));
        } else {
            assert(s.filter(|l: CartItemModel| !pred(l)) == s.drop_last().filter(
                |l: CartItemModel| !pred(l),
            ).push(s.last()));
            lemma_reserved_push(s.drop_last().filter(|l: CartItemModel| !pred(l)), s.last(), pid);
            assert(s.filter(pred) == s.drop_last().filter(pred));
        }
    }
}

// ---------------------------------------------------------------------------
// Index uniqueness under distinctness
// ---------------------------------------------------------------------------

pub proof fn lemma_product_index_of(s: Seq<ProductModel>, i: int)
    requires
        product_ids_distinct(s),
        0 <= i < s.len(),
    ensures
        has_product(s, s[i].id),
        product_index(s, s[i].id) == i,
{
    let id = s[i].id;
    assert(has_product(s, id));
    let k = product_index(s, id);
    assert(0 <= k < s.len() && s[k].id == id);
    if k != i {
        assert(false);
    }
}

pub proof fn lemma_cart_index_of(s: Seq<CartModel>, i: int)
    requires
        cart_ids_distinct(s),
        0 <= i < s.len(),
    ensures
        has_cart(s, s[i].id),
        cart_index(s, s[i].id) == i,
{
    let id = s[i].id;
    assert(has_cart(s, id));
    let k = cart_index(s, id);
    assert(0 <= k < s.len() && s[k].id == id);
    if k != i {
        assert(false);
    }
}

pub proof fn lemma_line_index_of(s: Seq<CartItemModel>, i: int)
    requires
        line_keys_distinct(s),
        0 <= i < s.len(),
    ensures
        has_line(s, s[i].cart_id, s[i].product_id),
        line_index(s, s[i].cart_id, s[i].product_id) == i,
{
    let c = s[i].cart_id;
    let p = s[i].product_id;
    assert(has_line(s, c, p));
    let k = line_index(s, c, p);
    assert(0 <= k < s.len() && s[k].cart_id == c && s[k].product_id == p);
    if k != i {
        assert(false);
    }
}

pub proof fn lemma_open_cart_index_of(s: Seq<CartModel>, i: int)
    requires
        one_open_cart_per_user(s),
        0 <= i < s.len(),
        s[i].status is Open,
    ensures
        has_open_cart(s, s[i].user_id),
        open_cart_index(s, s[i].user_id) == i,
{
    let u = s[i].user_id;
    assert(has_open_cart(s, u));
    let k = open_cart_index(s, u);
    assert(0 <= k < s.len() && s[k].user_id == u && s[k].status is Open);
    if k != i {
        assert(false);
    }
}

// ---------------------------------------------------------------------------
// The store itself
// ---------------------------------------------------------------------------

/// The whole state the reconciler acts on. Operations take it by
/// mutable reference, mirroring one transaction over a single
/// consistent data set.
#[derive(Debug, PartialEq)]
pub struct Store {
    pub products: Vec<ProductModel>,
    pub carts: Vec<CartModel>,
    pub lines: Vec<CartItemModel>,
}

impl Store {
    /// Available stock plus reserved stock of one product: the total
    /// owned stock, which no cart operation changes.
    pub open spec fn stock_of(self, pid: u128) -> int {
        avail_of(self.products@, pid) + reserved_for(self.lines@, pid)
    }

    /// Well-formedness: identifiers and line keys are unique, lines
    /// reserve positive quantities of existing products, each user has
    /// at most one open cart, and per product the total owned stock
    /// fits the ledger's counter.
    pub open spec fn wf(self) -> bool {
        &&& product_ids_distinct(self.products@)
        &&& cart_ids_distinct(self.carts@)
        &&& line_keys_distinct(self.lines@)
        &&& lines_positive(self.lines@)
        &&& one_open_cart_per_user(self.carts@)
        &&& forall|i: int|
            0 <= i < self.lines@.len() ==> has_product(
                self.products@,
                (#[trigger] self.lines@[i]).product_id,
            )
        &&& forall|i: int|
            0 <= i < self.products@.len() ==> (#[trigger] self.products@[i]).quantity
                + reserved_for(self.lines@, self.products@[i].id) <= u32::MAX
    }

    /// Creates an empty store.
    pub fn new() -> (r: Store)
        ensures
            r.wf(),
            r.products@ =~= Seq::<ProductModel>::empty(),
            r.carts@ =~= Seq::<CartModel>::empty(),
            r.lines@ =~= Seq::<CartItemModel>::empty(),
    {
        Store { products: Vec::new(), carts: Vec::new(), lines: Vec::new() }
    }

    /// Finds the index of the product with identifier `id`.
    pub(crate) fn find_product(&self, id: u128) -> (r: Option<usize>)
        requires
            product_ids_distinct(self.products@),
        ensures
            match r {
                Some(i) => has_product(self.products@, id) && i == product_index(
                    self.products@,
                    id,
                ) && i < self.products@.len() && self.products@[i as int].id == id,
                None => !has_product(self.products@, id),
            },
    {
        let n = self.products.len();
        let mut i: usize = 0;
        while i < n
            invariant
                0 <= i <= n == self.products@.len(),
                product_ids_distinct(self.products@),
                forall|j: int| 0 <= j < i ==> (#[trigger] self.products@[j]).id != id,
            decreases n - i,
        {
            if self.products[i].id == id {
                proof {
                    lemma_product_index_of(self.products@, i as int);
                }
                return Some(i);
            }
            i = i + 1;
        }
        None
    }

    /// Finds the index of the cart with identifier `id`.
    pub(crate) fn find_cart(&self, id: u128) -> (r: Option<usize>)
        requires
            cart_ids_distinct(self.carts@),
        ensures
            match r {
                Some(i) => has_cart(self.carts@, id) && i == cart_index(self.carts@, id) && i
                    < self.carts@.len() && self.carts@[i as int].id == id,
                None => !has_cart(self.carts@, id),
            },
    {
        let n = self.carts.len();
        let mut i: usize = 0;
        while i < n
            invariant
                0 <= i <= n == self.carts@.len(),
                cart_ids_distinct(self.carts@),
                forall|j: int| 0 <= j < i ==> (#[trigger] self.carts@[j]).id != id,
            decreases n - i,
        {
            if self.carts[i].id == id {
                proof {
                    lemma_cart_index_of(self.carts@, i as int);
                }
                return Some(i);
            }
            i = i + 1;
        }
        None
    }

    /// Finds the index of the open cart of `user_id`.
    pub(crate) fn find_open_cart(&self, user_id: u128) -> (r: Option<usize>)
        requires
            one_open_cart_per_user(self.carts@),
        ensures
            match r {
                Some(i) => has_open_cart(self.carts@, user_id) && i == open_cart_index(
                    self.carts@,
                    user_id,
                ) && i < self.carts@.len() && self.carts@[i as int].user_id == user_id
                    && self.carts@[i as int].status is Open,
                None => !has_open_cart(self.carts@, user_id),
            },
    {
        let n = self.carts.len();
        let mut i: usize = 0;
        while i < n
            invariant
                0 <= i <= n == self.carts@.len(),
                one_open_cart_per_user(self.carts@),
                forall|j: int|
                    0 <= j < i ==> !((#[trigger] self.carts@[j]).user_id == user_id
                        && self.carts@[j].status is Open),
            decreases n - i,
        {
            let c = &self.carts[i];
            if c.user_id == user_id && matches!(c.status, CartStatus::Open) {
                proof {
                    lemma_open_cart_index_of(self.carts@, i as int);
                }
                return Some(i);
            }
            i = i + 1;
        }
        None
    }

    /// Finds the index of the line keyed by `(cart_id, product_id)`.
    pub(crate) fn find_line(&self, cart_id: u128, product_id: u128) -> (r: Option<usize>)
        requires
            line_keys_distinct(self.lines@),
        ensures
            match r {
                Some(i) => has_line(self.lines@, cart_id, product_id) && i == line_index(
                    self.lines@,
                    cart_id,
                    product_id,
                ) && i < self.lines@.len() && self.lines@[i as int].cart_id == cart_id
                    && self.lines@[i as int].product_id == product_id,
                None => !has_line(self.lines@, cart_id, product_id),
            },
    {
        let n = self.lines.len();
        let mut i: usize = 0;
        while i < n
            invariant
                0 <= i <= n == self.lines@.len(),
                line_keys_distinct(self.lines@),
                forall|j: int|
                    0 <= j < i ==> !((#[trigger] self.lines@[j]).cart_id == cart_id
                        && self.lines@[j].product_id == product_id),
            decreases n - i,
        {
            let l = &self.lines[i];
            if l.cart_id == cart_id && l.product_id == product_id {
                proof {
                    lemma_line_index_of(self.lines@, i as int);
                }
                return Some(i);
            }
            i = i + 1;
        }
        None
    }

    /// Registers a new product with its initial available stock.
    ///
    /// Fails with `DuplicateId` when a product with the same identifier
    /// already exists; the store is then unchanged.
    pub fn add_product(&mut self, id: u128, name: String, price: u64, quantity: u32, now: i64) -> (r:
        Result<usize, CartError>)
        requires
            old(self).wf(),
        ensures
            final(self).wf(),
            has_product(old(self).products@, id) ==> r == Err::<usize, CartError>(
                CartError::DuplicateId,
            ) && *final(self) == *old(self),
            !has_product(old(self).products@, id) ==> {
                &&& r == Ok::<usize, CartError>((final(self).products@.len() - 1) as usize)
                &&& final(self).products@ == old(self).products@.push(
                    ProductModel { id, name, price, quantity, updated_at: now },
                )
                &&& final(self).carts@ == old(self).carts@
                &&& final(self).lines@ == old(self).lines@
            },
    {
        if self.find_product(id).is_some() {
            return Err(CartError::DuplicateId);
        }
        let ghost pre = *self;
        let p = ProductModel { id, name, price, quantity, updated_at: now };
        self.products.push(p);
        proof {
            let s = self.products@;
            assert(forall|j: int| 0 <= j < pre.products@.len() ==> s[j] == pre.products@[j]);
            assert forall|i: int| 0 <= i < self.lines@.len() implies has_product(
                s,
                (#[trigger] self.lines@[i]).product_id,
            ) by {
                assert(has_product(pre.products@, self.lines@[i].product_id));
                let k = product_index(pre.products@, self.lines@[i].product_id);
                assert(s[k].id == self.lines@[i].product_id);
            }
            assert forall|i: int|
                0 <= i < s.len() implies (#[trigger] s[i]).quantity + reserved_for(
                self.lines@,
                s[i].id,
            ) <= u32::MAX by {
                if i < s.len() - 1 {
                    assert(s[i] == pre.products@[i]);
                } else {
                    assert(s[i].id == id);
                    assert(forall|j: int|
                        0 <= j < self.lines@.len() ==> (#[trigger] self.lines@[j]).product_id
                            != id);
                    lemma_reserved_zero(self.lines@, id);
                }
            }
        }
        Ok(self.products.len() - 1)
    }

    /// Marks an open cart as paid, closing it against further changes.
    ///
    /// Fails with `NotFound` for an unknown cart and with `CartClosed`
    /// for a cart that is not open; the store is then unchanged.
    pub fn pay_cart(&mut self, cart_id: u128, now: i64) -> (r: Result<CartModel, CartError>)
        requires
            old(self).wf(),
        ensures
            final(self).wf(),
            !has_cart(old(self).carts@, cart_id) ==> r == Err::<CartModel, CartError>(
                CartError::NotFound,
            ) && *final(self) == *old(self),
            has_cart(old(self).carts@, cart_id) && !(old(self).carts@[cart_index(
                old(self).carts@,
                cart_id,
            )].status is Open) ==> r == Err::<CartModel, CartError>(CartError::CartClosed)
                && *final(self) == *old(self),
            has_cart(old(self).carts@, cart_id) && old(self).carts@[cart_index(
                old(self).carts@,
                cart_id,
            )].status is Open ==> {
                let i = cart_index(old(self).carts@, cart_id);
                let updated = CartModel {
                    status: CartStatus::Paid,
                    updated_at: now,
                    ..old(self).carts@[i]
                };
                &&& r == Ok::<CartModel, CartError>(updated)
                &&& final(self).carts@ == old(self).carts@.update(i, updated)
                &&& final(self).products@ == old(self).products@
                &&& final(self).lines@ == old(self).lines@
            },
    {
        let idx = match self.find_cart(cart_id) {
            Some(i) => i,
            None => {
                return Err(CartError::NotFound);
            },
        };
        let c = &self.carts[idx];
        if !matches!(c.status, CartStatus::Open) {
            return Err(CartError::CartClosed);
        }
        let ghost pre = *self;
        let updated = CartModel {
            id: c.id,
            user_id: c.user_id,
            status: CartStatus::Paid,
            created_at: c.created_at,
            updated_at: now,
        };
        self.carts[idx] = updated;
        proof {
            let s = self.carts@;
            assert(forall|j: int|
                0 <= j < s.len() ==> (#[trigger] s[j]).id == pre.carts@[j].id);
            assert(forall|j: int|
                0 <= j < s.len() ==> ((#[trigger] s[j]).status is Open ==> pre.carts@[j].status
                    is Open) && s[j].user_id == pre.carts@[j].user_id);
        }
        Ok(updated)
    }
}

} // verus!
