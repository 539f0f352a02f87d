//! The cart reconciler: adding, resizing and bulk-removing cart lines
//! while keeping the product stock ledger consistent.
//!
//! Every operation behaves as one atomic transaction on the [`Store`]:
//! it either applies completely, or fails with a [`CartError`] and
//! leaves the store exactly as it was. Each public operation carries a
//! transition predicate (`..._post`) that pins the resulting state
//! down; the proof functions in [`crate::laws`] derive the global
//! accounting properties from these predicates alone.

use crate::errors::CartError;
use crate::models::{CartItemModel, CartModel, CartStatus, ProductModel};
use crate::store::{
    cart_index, has_cart, has_line, has_open_cart, has_product, lemma_line_index_of,
    lemma_line_le_reserved, lemma_product_index_of, lemma_reserved_nonneg, lemma_reserved_push,
    lemma_reserved_remove, lemma_reserved_update, line_contrib, line_index, line_keys_distinct,
    lines_positive, open_cart_index, product_ids_distinct, product_index, reserved_for, Store,
};
use vstd::prelude::*;

verus! {

/// The successful outcome of a quantity change: either the line was
/// updated, or it reached quantity 0 and was removed.
#[derive(Clone, Copy, Debug, PartialEq, Eq, Structural)]
pub enum SetQuantityOutcome {
    Updated(CartItemModel),
    Removed,
}

/// One entry of a bulk removal request.
#[derive(Clone, Copy, Debug, PartialEq, Eq, Structural)]
pub struct CartItemKey {
    pub cart_id: u128,
    pub product_id: u128,
}

// ---------------------------------------------------------------------------
// Spec-level descriptions of the transitions
// ---------------------------------------------------------------------------

/// The line `l` with a new quantity and price, touched at `now`.
pub open spec fn line_with(l: CartItemModel, q: u32, unit_amount: u64, now: i64) -> CartItemModel {
    CartItemModel { quantity: q, unit_amount, updated_at: now, ..l }
}

/// The product `p` with a new available quantity, touched at `now`.
pub open spec fn product_with(p: ProductModel, q: u32, now: i64) -> ProductModel {
    ProductModel { quantity: q, updated_at: now, ..p }
}

/// `post` is `pre` with `amount` units of `pid` returned to the ledger.
/// Releasing stock of an unknown product changes nothing.
pub open spec fn products_released(
    pre: Seq<ProductModel>,
    post: Seq<ProductModel>,
    pid: u128,
    amount: int,
    now: i64,
) -> bool {
    if has_product(pre, pid) {
        let pi = product_index(pre, pid);
        post == pre.update(pi, product_with(pre[pi], (pre[pi].quantity + amount) as u32, now))
    } else {
        post == pre
    }
}

/// The transition of changing the existing line for `(c, p)` to the
/// target quantity `target`, with all stock accounting.
///
/// Requires `has_line(pre.lines@, c, p)` to be meaningful.
pub open spec fn quantity_change_post(
    pre: Store,
    post: Store,
    c: u128,
    p: u128,
    target: int,
    unit_amount: u64,
    now: i64,
    r: Result<SetQuantityOutcome, CartError>,
) -> bool {
    let i = line_index(pre.lines@, c, p);
    let oldl = pre.lines@[i];
    if target == 0 {
        // The line is deleted and its whole reservation returns to stock.
        &&& r == Ok::<SetQuantityOutcome, CartError>(SetQuantityOutcome::Removed)
        &&& post.lines@ == pre.lines@.remove(i)
        &&& post.carts@ == pre.carts@
        &&& products_released(pre.products@, post.products@, p, oldl.quantity as int, now)
    } else if target > oldl.quantity {
        // The increase must first be reserved from the ledger.
        if !has_product(pre.products@, p) {
            r == Err::<SetQuantityOutcome, CartError>(CartError::NotFound) && post == pre
        } else {
            let pi = product_index(pre.products@, p);
            let prod = pre.products@[pi];
            if prod.quantity < target - oldl.quantity {
                r == Err::<SetQuantityOutcome, CartError>(CartError::InsufficientStock) && post
                    == pre
            } else {
                let nl = line_with(oldl, target as u32, unit_amount, now);
                &&& r == Ok::<SetQuantityOutcome, CartError>(SetQuantityOutcome::Updated(nl))
                &&& post.lines@ == pre.lines@.update(i, nl)
                &&& post.products@ == pre.products@.update(
                    pi,
                    product_with(prod, (prod.quantity - (target - oldl.quantity)) as u32, now),
                )
                &&& post.carts@ == pre.carts@
            }
        }
    } else if target == oldl.quantity {
        // No stock movement; only the line itself is rewritten.
        let nl = line_with(oldl, target as u32, unit_amount, now);
        &&& r == Ok::<SetQuantityOutcome, CartError>(SetQuantityOutcome::Updated(nl))
        &&& post.lines@ == pre.lines@.update(i, nl)
        &&& post.products@ == pre.products@
        &&& post.carts@ == pre.carts@
    } else {
        // The decrease is released back to the ledger; this always succeeds.
        let nl = line_with(oldl, target as u32, unit_amount, now);
        &&& r == Ok::<SetQuantityOutcome, CartError>(SetQuantityOutcome::Updated(nl))
        &&& post.lines@ == pre.lines@.update(i, nl)
        &&& post.carts@ == pre.carts@
        &&& products_released(pre.products@, post.products@, p, oldl.quantity - target, now)
    }
}

/// The full transition of [`Store::set_quantity`].
pub open spec fn set_quantity_post(
    pre: Store,
    post: Store,
    c: u128,
    p: u128,
    new_quantity: u32,
    unit_amount: u64,
    now: i64,
    r: Result<SetQuantityOutcome, CartError>,
) -> bool {
    if !has_line(pre.lines@, c, p) {
        r == Err::<SetQuantityOutcome, CartError>(CartError::ItemNotFound) && post == pre
    } else {
        quantity_change_post(pre, post, c, p, new_quantity as int, unit_amount, now, r)
    }
}

/// The full transition of [`Store::add_item`].
pub open spec fn add_item_post(
    pre: Store,
    post: Store,
    c: u128,
    p: u128,
    quantity: u32,
    unit_amount: u64,
    now: i64,
    r: Result<CartItemModel, CartError>,
) -> bool {
    if quantity == 0 {
        r == Err::<CartItemModel, CartError>(CartError::InvalidQuantity) && post == pre
    } else if !has_product(pre.products@, p) {
        r == Err::<CartItemModel, CartError>(CartError::NotFound) && post == pre
    } else {
        let pi = product_index(pre.products@, p);
        let prod = pre.products@[pi];
        if prod.quantity < quantity {
            r == Err::<CartItemModel, CartError>(CartError::InsufficientStock) && post == pre
        } else if has_line(pre.lines@, c, p) {
            // An existing line grows by `quantity`: the same single code
            // path as a quantity change to `old + quantity`.
            let i = line_index(pre.lines@, c, p);
            let oldl = pre.lines@[i];
            let nl = line_with(oldl, (oldl.quantity + quantity) as u32, unit_amount, now);
            &&& r == Ok::<CartItemModel, CartError>(nl)
            &&& post.lines@ == pre.lines@.update(i, nl)
            &&& post.products@ == pre.products@.update(
                pi,
                product_with(prod, (prod.quantity - quantity) as u32, now),
            )
            &&& post.carts@ == pre.carts@
        } else {
            // A fresh line is created with the reserved quantity.
            let nl = CartItemModel {
                cart_id: c,
                product_id: p,
                quantity,
                unit_amount,
                created_at: now,
                updated_at: now,
            };
            &&& r == Ok::<CartItemModel, CartError>(nl)
            &&& post.lines@ == pre.lines@.push(nl)
            &&& post.products@ == pre.products@.update(
                pi,
                product_with(prod, (prod.quantity - quantity) as u32, now),
            )
            &&& post.carts@ == pre.carts@
        }
    }
}

// ---------------------------------------------------------------------------
// Preservation lemmas for the well-formedness conjuncts
// ---------------------------------------------------------------------------

/// Products whose identifiers agree position by position resolve
/// membership and lookup identically.
pub open spec fn same_product_ids(a: Seq<ProductModel>, b: Seq<ProductModel>) -> bool {
    a.len() == b.len() && forall|i: int| 0 <= i < a.len() ==> (#[trigger] b[i]).id == a[i].id
}

pub proof fn lemma_same_ids_lookup(a: Seq<ProductModel>, b: Seq<ProductModel>, pid: u128)
    requires
        same_product_ids(a, b),
    ensures
        has_product(b, pid) == has_product(a, pid),
        has_product(a, pid) ==> product_ids_distinct(a) ==> product_ids_distinct(b)
            ==> product_index(b, pid) == product_index(a, pid),
{
    if has_product(a, pid) {
        let i = product_index(a, pid);
        assert(0 <= i < a.len() && a[i].id == pid);
        assert(b[i].id == pid);
        assert(has_product(b, pid));
        if product_ids_distinct(a) && product_ids_distinct(b) {
            let k = product_index(b, pid);
            assert(0 <= k < b.len() && b[k].id == pid);
            if k != i {
                assert(a[k].id == pid);
                assert(false);
            }
        }
    }
    if has_product(b, pid) {
        let i = product_index(b, pid);
        assert(a[i].id == pid);
        assert(has_product(a, pid));
    }
}

/// Updating a line in place, keeping its key and a positive quantity,
/// preserves the line-set invariants.
proof fn lemma_lines_update_props(s: Seq<CartItemModel>, i: int, l: CartItemModel)
    requires
        0 <= i < s.len(),
        line_keys_distinct(s),
        lines_positive(s),
        l.cart_id == s[i].cart_id,
        l.product_id == s[i].product_id,
        l.quantity > 0,
    ensures
        line_keys_distinct(s.update(i, l)),
        lines_positive(s.update(i, l)),
{
    let t = s.update(i, l);
    assert forall|a: int, b: int| 0 <= a < b < t.len() implies !(t[a].cart_id == t[b].cart_id
        && t[a].product_id == t[b].product_id) by {
        assert(t[a] == if a == i { l } else { s[a] });
        assert(t[b] == if b == i { l } else { s[b] });
    }
    assert forall|a: int| 0 <= a < t.len() implies (#[trigger] t[a]).quantity > 0 by {
        assert(t[a] == if a == i { l } else { s[a] });
    }
}

/// Removing a line preserves the line-set invariants.
proof fn lemma_lines_remove_props(s: Seq<CartItemModel>, i: int)
    requires
        0 <= i < s.len(),
        line_keys_distinct(s),
        lines_positive(s),
    ensures
        line_keys_distinct(s.remove(i)),
        lines_positive(s.remove(i)),
        forall|k: int|
            0 <= k < s.remove(i).len() ==> #[trigger] s.remove(i)[k] == (if k < i {
                s[k]
            } else {
                s[k + 1]
            }),
{
    let t = s.remove(i);
    assert forall|k: int| 0 <= k < t.len() implies #[trigger] t[k] == (if k < i {
        s[k]
    } else {
        s[k + 1]
    }) by {}
    assert forall|a: int, b: int| 0 <= a < b < t.len() implies !(t[a].cart_id == t[b].cart_id
        && t[a].product_id == t[b].product_id) by {
        let ma = if a < i { a } else { a + 1 };
        let mb = if b < i { b } else { b + 1 };
        assert(t[a] == s[ma]);
        assert(t[b] == s[mb]);
    }
    assert forall|a: int| 0 <= a < t.len() implies (#[trigger] t[a]).quantity > 0 by {
        let ma = if a < i { a } else { a + 1 };
        assert(t[a] == s[ma]);
    }
}

/// Appending a line with a fresh key and positive quantity preserves
/// the line-set invariants.
proof fn lemma_lines_push_props(s: Seq<CartItemModel>, l: CartItemModel)
    requires
        line_keys_distinct(s),
        lines_positive(s),
        !has_line(s, l.cart_id, l.product_id),
        l.quantity > 0,
    ensures
        line_keys_distinct(s.push(l)),
        lines_positive(s.push(l)),
{
    let t = s.push(l);
    assert forall|a: int, b: int| 0 <= a < b < t.len() implies !(t[a].cart_id == t[b].cart_id
        && t[a].product_id == t[b].product_id) by {
        if b == s.len() {
            assert(t[a] == s[a]);
            assert(t[b] == l);
            if t[a].cart_id == l.cart_id && t[a].product_id == l.product_id {
                assert(has_line(s, l.cart_id, l.product_id));
            }
        } else {
            assert(t[a] == s[a]);
            assert(t[b] == s[b]);
        }
    }
    assert forall|a: int| 0 <= a < t.len() implies (#[trigger] t[a]).quantity > 0 by {
        if a < s.len() {
            assert(t[a] == s[a]);
        } else {
            assert(t[a] == l);
        }
    }
}

// ---------------------------------------------------------------------------
// The operations
// ---------------------------------------------------------------------------

impl Store {
    /// Returns `amount` units of product `p` to the ledger, in place.
    /// Touches nothing else. Releasing stock of an unknown product is
    /// a no-op, matching the ledger's unconditional release.
    fn release_stock(&mut self, p: u128, amount: u32, now: i64) -> (found: bool)
        requires
            product_ids_distinct(old(self).products@),
            has_product(old(self).products@, p) ==> old(self).products@[product_index(
                old(self).products@,
                p,
            )].quantity + amount <= u32::MAX,
        ensures
            products_released(old(self).products@, final(self).products@, p, amount as int, now),
            final(self).carts@ == old(self).carts@,
            final(self).lines@ == old(self).lines@,
            found == has_product(old(self).products@, p),
    {
        let ghost pre = self.products@;
        match self.find_product(p) {
            Some(pi) => {
                let prod = &mut self.products[pi];
                prod.quantity = prod.quantity + amount;
                prod.updated_at = now;
                proof {
                    assert(self.products@ =~= pre.update(
                        pi as int,
                        product_with(pre[pi as int], (pre[pi as int].quantity + amount) as u32, now),
                    ));
                }
                true
            },
            None => false,
        }
    }

    /// Changes the line at `idx` to quantity `target`, reserving or
    /// releasing the difference against the ledger, or deleting the
    /// line when the target is 0. This is the one shared code path for
    /// all stock adjustment.
    fn apply_quantity_change(&mut self, idx: usize, target: u64, unit_amount: u64, now: i64) -> (r:
        Result<SetQuantityOutcome, CartError>)
        requires
            old(self).wf(),
            idx < old(self).lines@.len(),
        ensures
            final(self).wf(),
            quantity_change_post(
                *old(self),
                *final(self),
                old(self).lines@[idx as int].cart_id,
                old(self).lines@[idx as int].product_id,
                target as int,
                unit_amount,
                now,
                r,
            ),
    {
        let ghost pre = *self;
        let c = self.lines[idx].cart_id;
        let p = self.lines[idx].product_id;
        let old_qty = self.lines[idx].quantity;
        proof {
            lemma_line_index_of(pre.lines@, idx as int);
            lemma_line_le_reserved(pre.lines@, idx as int, p);
        }
        if target == 0 {
            // Delete the line, then restore its full reservation.
            let removed = self.lines.remove(idx);
            proof {
                lemma_lines_remove_props(pre.lines@, idx as int);
                // The line's product exists and regains at most what was reserved.
                assert(has_product(self.products@, p));
                let pi = product_index(self.products@, p);
                lemma_product_index_of(self.products@, pi);
                assert(self.products@[pi].quantity + reserved_for(pre.lines@, p) <= u32::MAX);
                assert(old_qty <= reserved_for(pre.lines@, p));
            }
            let found = self.release_stock(p, old_qty, now);
            proof {
                let post = *self;
                // Line invariants survive the removal.
                assert(line_keys_distinct(post.lines@));
                assert(lines_positive(post.lines@));
                // Every remaining line still references an existing product.
                assert(same_product_ids(pre.products@, post.products@));
                assert forall|k: int| 0 <= k < post.lines@.len() implies has_product(
                    post.products@,
                    (#[trigger] post.lines@[k]).product_id,
                ) by {
                    let m = if k < idx { k } else { k + 1 };
                    assert(post.lines@[k] == pre.lines@[m]);
                    lemma_same_ids_lookup(pre.products@, post.products@, pre.lines@[m].product_id);
                }
                // The stock cap still holds for every product.
                assert forall|k: int| 0 <= k < post.products@.len() implies (#[trigger] post
                    .products@[k]).quantity + reserved_for(post.lines@, post.products@[k].id)
                    <= u32::MAX by {
                    lemma_reserved_remove(pre.lines@, idx as int, post.products@[k].id);
                    lemma_product_index_of(pre.products@, k);
                    lemma_same_ids_lookup(pre.products@, post.products@, post.products@[k].id);
                }
            }
            Ok(SetQuantityOutcome::Removed)
        } else if target > old_qty as u64 {
            // Reserve the increase before committing the new quantity.
            let pidx = match self.find_product(p) {
                Some(pi) => pi,
                None => {
                    proof {
                        // Well-formedness guarantees the product exists.
                        assert(false);
                    }
                    return Err(CartError::NotFound);
                },
            };
            let avail = self.products[pidx].quantity;
            let delta = target - old_qty as u64;
            if (avail as u64) < delta {
                return Err(CartError::InsufficientStock);
            }
            let delta32: u32 = delta as u32;
            let target32: u32 = old_qty + delta32;
            let prod = &mut self.products[pidx];
            prod.quantity = prod.quantity - delta32;
            prod.updated_at = now;
            let line = &mut self.lines[idx];
            line.quantity = target32;
            line.unit_amount = unit_amount;
            line.updated_at = now;
            let nl = *line;
            proof {
                let post = *self;
                let pi = pidx as int;
                assert(post.products@ =~= pre.products@.update(
                    pi,
                    product_with(
                        pre.products@[pi],
                        (pre.products@[pi].quantity - (target - old_qty)) as u32,
                        now,
                    ),
                ));
                assert(post.lines@ =~= pre.lines@.update(
                    idx as int,
                    line_with(pre.lines@[idx as int], target as u32, unit_amount, now),
                ));
                lemma_lines_update_props(pre.lines@, idx as int, nl);
                assert(same_product_ids(pre.products@, post.products@));
                assert forall|k: int| 0 <= k < post.lines@.len() implies has_product(
                    post.products@,
                    (#[trigger] post.lines@[k]).product_id,
                ) by {
                    assert(post.lines@[k] == if k == idx as int {
                        nl
                    } else {
                        pre.lines@[k]
                    });
                    lemma_same_ids_lookup(pre.products@, post.products@, post.lines@[k].product_id);
                }
                assert forall|k: int| 0 <= k < post.products@.len() implies (#[trigger] post
                    .products@[k]).quantity + reserved_for(post.lines@, post.products@[k].id)
                    <= u32::MAX by {
                    lemma_reserved_update(pre.lines@, idx as int, nl, post.products@[k].id);
                    lemma_product_index_of(pre.products@, k);
                    lemma_same_ids_lookup(pre.products@, post.products@, post.products@[k].id);
                }
            }
            Ok(SetQuantityOutcome::Updated(nl))
        } else {
            // The target does not exceed the old quantity: release any
            // difference, then rewrite the line.
            let ghost released = old_qty - target as u32;
            if (target as u32) < old_qty {
                let rel: u32 = old_qty - target as u32;
                proof {
                    assert(has_product(self.products@, p));
                    let pi = product_index(self.products@, p);
                    lemma_product_index_of(self.products@, pi);
                    assert(self.products@[pi].quantity + reserved_for(pre.lines@, p) <= u32::MAX);
                }
                self.release_stock(p, rel, now);
            }
            let ghost mid_products = self.products@;
            let target32: u32 = target as u32;
            let line = &mut self.lines[idx];
            line.quantity = target32;
            line.unit_amount = unit_amount;
            line.updated_at = now;
            let nl = *line;
            proof {
                let post = *self;
                assert(post.lines@ =~= pre.lines@.update(
                    idx as int,
                    line_with(pre.lines@[idx as int], target as u32, unit_amount, now),
                ));
                lemma_lines_update_props(pre.lines@, idx as int, nl);
                assert(same_product_ids(pre.products@, post.products@));
                assert forall|k: int| 0 <= k < post.lines@.len() implies has_product(
                    post.products@,
                    (#[trigger] post.lines@[k]).product_id,
                ) by {
                    assert(post.lines@[k] == if k == idx as int {
                        nl
                    } else {
                        pre.lines@[k]
                    });
                    lemma_same_ids_lookup(pre.products@, post.products@, post.lines@[k].product_id);
                }
                assert forall|k: int| 0 <= k < post.products@.len() implies (#[trigger] post
                    .products@[k]).quantity + reserved_for(post.lines@, post.products@[k].id)
                    <= u32::MAX by {
                    lemma_reserved_update(pre.lines@, idx as int, nl, post.products@[k].id);
                    lemma_product_index_of(pre.products@, k);
                    lemma_same_ids_lookup(pre.products@, post.products@, post.products@[k].id);
                    if post.products@[k].id == p {
                        assert(pre.products@[product_index(pre.products@, p)].quantity
                            + reserved_for(pre.lines@, p) <= u32::MAX);
                    }
                }
            }
            Ok(SetQuantityOutcome::Updated(nl))
        }
    }

    /// Sets the quantity of the line for `(cart_id, product_id)` to
    /// `new_quantity`, reserving an increase against the ledger,
    /// releasing a decrease back to it, and deleting the line when the
    /// new quantity is 0.
    ///
    /// Fails with `ItemNotFound` when no such line exists and with
    /// `InsufficientStock` when an increase exceeds the available
    /// stock; the store is then unchanged.
    pub fn set_quantity(
        &mut self,
        cart_id: u128,
        product_id: u128,
        new_quantity: u32,
        unit_amount: u64,
        now: i64,
    ) -> (r: Result<SetQuantityOutcome, CartError>)
        requires
            old(self).wf(),
        ensures
            final(self).wf(),
            set_quantity_post(
                *old(self),
                *final(self),
                cart_id,
                product_id,
                new_quantity,
                unit_amount,
                now,
                r,
            ),
    {
        let idx = match self.find_line(cart_id, product_id) {
            Some(i) => i,
            None => {
                return Err(CartError::ItemNotFound);
            },
        };
        self.apply_quantity_change(idx, new_quantity as u64, unit_amount, now)
    }

    /// Adds `quantity` units of `product_id` to the cart's line,
    /// creating the line if it does not exist yet, and reserving the
    /// quantity against the ledger either way.
    ///
    /// Fails with `InvalidQuantity` when `quantity` is 0, `NotFound`
    /// when the product does not exist, and `InsufficientStock` when
    /// fewer units are available than requested; the store is then
    /// unchanged.
    pub fn add_item(
        &mut self,
        cart_id: u128,
        product_id: u128,
        quantity: u32,
        unit_amount: u64,
        now: i64,
    ) -> (r: Result<CartItemModel, CartError>)
        requires
            old(self).wf(),
        ensures
            final(self).wf(),
            add_item_post(
                *old(self),
                *final(self),
                cart_id,
                product_id,
                quantity,
                unit_amount,
                now,
                r,
            ),
    {
        if quantity == 0 {
            return Err(CartError::InvalidQuantity);
        }
        let ghost pre = *self;
        match self.find_line(cart_id, product_id) {
            Some(idx) => {
                // The line exists: one shared code path with set_quantity.
                let old_qty = self.lines[idx].quantity;
                let target: u64 = old_qty as u64 + quantity as u64;
                let res = self.apply_quantity_change(idx, target, unit_amount, now);
                proof {
                    lemma_line_index_of(pre.lines@, idx as int);
                }
                match res {
                    Ok(SetQuantityOutcome::Updated(l)) => Ok(l),
                    Ok(SetQuantityOutcome::Removed) => {
                        proof {
                            assert(false);
                        }
                        Err(CartError::ItemNotFound)
                    },
                    Err(e) => Err(e),
                }
            },
            None => {
                // No line yet: reserve, then insert the new line.
                let pidx = match self.find_product(product_id) {
                    Some(pi) => pi,
                    None => {
                        return Err(CartError::NotFound);
                    },
                };
                let avail = self.products[pidx].quantity;
                if avail < quantity {
                    return Err(CartError::InsufficientStock);
                }
                let prod = &mut self.products[pidx];
                prod.quantity = prod.quantity - quantity;
                prod.updated_at = now;
                let nl = CartItemModel {
                    cart_id,
                    product_id,
                    quantity,
                    unit_amount,
                    created_at: now,
                    updated_at: now,
                };
                self.lines.push(nl);
                proof {
                    let post = *self;
                    let pi = pidx as int;
                    assert(post.products@ =~= pre.products@.update(
                        pi,
                        product_with(
                            pre.products@[pi],
                            (pre.products@[pi].quantity - quantity) as u32,
                            now,
                        ),
                    ));
                    assert(post.lines@ =~= pre.lines@.push(nl));
                    lemma_lines_push_props(pre.lines@, nl);
                    assert(same_product_ids(pre.products@, post.products@));
                    assert forall|k: int| 0 <= k < post.lines@.len() implies has_product(
                        post.products@,
                        (#[trigger] post.lines@[k]).product_id,
                    ) by {
                        assert(post.lines@[k] == if k < pre.lines@.len() {
                            pre.lines@[k]
                        } else {
                            nl
                        });
                        lemma_same_ids_lookup(
                            pre.products@,
                            post.products@,
                            post.lines@[k].product_id,
                        );
                    }
                    assert forall|k: int| 0 <= k < post.products@.len() implies (#[trigger] post
                        .products@[k]).quantity + reserved_for(post.lines@, post.products@[k].id)
                        <= u32::MAX by {
                        lemma_reserved_push(pre.lines@, nl, post.products@[k].id);
                        lemma_product_index_of(pre.products@, k);
                        lemma_same_ids_lookup(pre.products@, post.products@, post.products@[k].id);
                    }
                }
                Ok(nl)
            },
        }
    }
}

// ---------------------------------------------------------------------------
// Bulk removal
// ---------------------------------------------------------------------------

/// All entries of a removal request name the same cart.
pub open spec fn all_same_cart(items: Seq<CartItemKey>) -> bool {
    forall|i: int| 0 <= i < items.len() ==> (#[trigger] items[i]).cart_id == items[0].cart_id
}

/// Whether the request names `pid` among its products.
pub open spec fn items_name_product(items: Seq<CartItemKey>, pid: u128) -> bool {
    exists|i: int| 0 <= i < items.len() && (#[trigger] items[i]).product_id == pid
}

/// Whether a stored line is hit by a removal request against cart `c`.
pub open spec fn line_matched(l: CartItemModel, c: u128, items: Seq<CartItemKey>) -> bool {
    l.cart_id == c && items_name_product(items, l.product_id)
}

/// The lines that a bulk removal deletes, in stored order.
pub open spec fn removed_lines(s: Seq<CartItemModel>, c: u128, items: Seq<CartItemKey>) -> Seq<
    CartItemModel,
> {
    s.filter(|l: CartItemModel| line_matched(l, c, items))
}

/// The lines that a bulk removal leaves in place, in stored order.
pub open spec fn kept_lines(s: Seq<CartItemModel>, c: u128, items: Seq<CartItemKey>) -> Seq<
    CartItemModel,
> {
    s.filter(|l: CartItemModel| !line_matched(l, c, items))
}

/// The full transition of [`Store::bulk_remove`]: either one of the
/// request-level rejections with an untouched store, or all matched
/// lines deleted with their reservations returned to the ledger.
/// A requested product without a matching line is silently ignored.
pub open spec fn bulk_remove_post(
    pre: Store,
    post: Store,
    items: Seq<CartItemKey>,
    now: i64,
    r: Result<(), CartError>,
) -> bool {
    if items.len() == 0 {
        r == Err::<(), CartError>(CartError::NoItems) && post == pre
    } else if !all_same_cart(items) {
        r == Err::<(), CartError>(CartError::MixedCarts) && post == pre
    } else {
        let c = items[0].cart_id;
        if !has_cart(pre.carts@, c) {
            r == Err::<(), CartError>(CartError::NotFound) && post == pre
        } else if !(pre.carts@[cart_index(pre.carts@, c)].status is Open) {
            r == Err::<(), CartError>(CartError::CartClosed) && post == pre
        } else {
            &&& r == Ok::<(), CartError>(())
            &&& post.carts@ == pre.carts@
            &&& post.lines@ == kept_lines(pre.lines@, c, items)
            &&& post.products@.len() == pre.products@.len()
            &&& forall|k: int|
                0 <= k < pre.products@.len() ==> {
                    let rel = reserved_for(removed_lines(pre.lines@, c, items), pre.products@[k].id);
                    #[trigger] post.products@[k] == if rel > 0 {
                        product_with(
                            pre.products@[k],
                            (pre.products@[k].quantity + rel) as u32,
                            now,
                        )
                    } else {
                        pre.products@[k]
                    }
                }
        }
    }
}

/// How appending one line extends the two filtered views.
proof fn lemma_bulk_filters_push(
    s: Seq<CartItemModel>,
    l: CartItemModel,
    c: u128,
    items: Seq<CartItemKey>,
)
    ensures
        removed_lines(s.push(l), c, items) == if line_matched(l, c, items) {
            removed_lines(s, c, items).push(l)
        } else {
            removed_lines(s, c, items)
        },
        kept_lines(s.push(l), c, items) == if line_matched(l, c, items) {
            kept_lines(s, c, items)
        } else {
            kept_lines(s, c, items).push(l)
        },
{
    reveal(Seq::filter);
    assert(s.push(l).drop_last() =~= s);
    assert(s.push(l).last() == l);
}

/// The kept lines inherit distinct keys and positive quantities, and
/// every kept line is one of the lines of the input.
proof fn lemma_kept_lines_props(s: Seq<CartItemModel>, c: u128, items: Seq<CartItemKey>)
    requires
        line_keys_distinct(s),
        lines_positive(s),
    ensures
        line_keys_distinct(kept_lines(s, c, items)),
        lines_positive(kept_lines(s, c, items)),
        forall|k: int|
            0 <= k < kept_lines(s, c, items).len() ==> exists|m: int|
                0 <= m < s.len() && #[trigger] kept_lines(s, c, items)[k] == s[m],
    decreases s.len(),
{
    reveal(Seq::filter);
    if s.len() == 0 {
    } else {
        let sd = s.drop_last();
        lemma_kept_lines_props(sd, c, items);
        lemma_bulk_filters_push(sd, s.last(), c, items);
        assert(sd.push(s.last()) =~= s);
        let t = kept_lines(s, c, items);
        let td = kept_lines(sd, c, items);
        if line_matched(s.last(), c, items) {
            assert(t == td);
            assert forall|k: int| 0 <= k < t.len() implies exists|m: int|
                0 <= m < s.len() && #[trigger] t[k] == s[m] by {
                assert(exists|m: int| 0 <= m < sd.len() && td[k] == sd[m]);
                let m = choose|m: int| 0 <= m < sd.len() && td[k] == sd[m];
                assert(t[k] == s[m]);
            }
        } else {
            assert(t == td.push(s.last()));
            assert forall|k: int| 0 <= k < t.len() implies exists|m: int|
                0 <= m < s.len() && #[trigger] t[k] == s[m] by {
                if k < td.len() {
                    assert(exists|m: int| 0 <= m < sd.len() && td[k] == sd[m]);
                    let m = choose|m: int| 0 <= m < sd.len() && td[k] == sd[m];
                    assert(t[k] == s[m]);
                } else {
                    assert(t[k] == s[s.len() - 1]);
                }
            }
            assert forall|a: int, b: int| 0 <= a < b < t.len() implies !(t[a].cart_id
                == t[b].cart_id && t[a].product_id == t[b].product_id) by {
                if b == t.len() - 1 {
                    assert(exists|m: int| 0 <= m < sd.len() && td[a] == sd[m]);
                    let m = choose|m: int| 0 <= m < sd.len() && td[a] == sd[m];
                    assert(t[a] == s[m]);
                    assert(t[b] == s[s.len() - 1]);
                    assert(m < s.len() - 1);
                } else {
                    assert(t[a] == td[a] && t[b] == td[b]);
                }
            }
            assert forall|a: int| 0 <= a < t.len() implies (#[trigger] t[a]).quantity > 0 by {
                if a < td.len() {
                    assert(t[a] == td[a]);
                } else {
                    assert(t[a] == s.last());
                }
            }
        }
    }
}

/// Stock reserved by all lines splits into the removed and the kept
/// part.
pub proof fn lemma_removed_kept_split(
    s: Seq<CartItemModel>,
    c: u128,
    items: Seq<CartItemKey>,
    pid: u128,
)
    ensures
        reserved_for(s, pid) == reserved_for(removed_lines(s, c, items), pid) + reserved_for(
            kept_lines(s, c, items),
            pid,
        ),
    decreases s.len(),
{
    reveal(Seq::filter);
    if s.len() == 0 {
    } else {
        let sd = s.drop_last();
        lemma_removed_kept_split(sd, c, items, pid);
        lemma_bulk_filters_push(sd, s.last(), c, items);
        assert(sd.push(s.last()) =~= s);
        if line_matched(s.last(), c, items) {
            lemma_reserved_push(removed_lines(sd, c, items), s.last(), pid);
        } else {
            lemma_reserved_push(kept_lines(sd, c, items), s.last(), pid);
        }
    }
}

/// If no line of `s` belongs to cart `c` with product `pid`, the
/// removal takes nothing of `pid` out of `s`.
proof fn lemma_removed_nothing_of(
    s: Seq<CartItemModel>,
    c: u128,
    items: Seq<CartItemKey>,
    pid: u128,
)
    requires
        forall|i: int|
            0 <= i < s.len() ==> !((#[trigger] s[i]).cart_id == c && s[i].product_id == pid),
    ensures
        reserved_for(removed_lines(s, c, items), pid) == 0,
    decreases s.len(),
{
    reveal(Seq::filter);
    if s.len() == 0 {
    } else {
        let sd = s.drop_last();
        assert(forall|i: int| 0 <= i < sd.len() ==> sd[i] == s[i]);
        lemma_removed_nothing_of(sd, c, items, pid);
        lemma_bulk_filters_push(sd, s.last(), c, items);
        assert(sd.push(s.last()) =~= s);
        if line_matched(s.last(), c, items) {
            lemma_reserved_push(removed_lines(sd, c, items), s.last(), pid);
            assert(line_contrib(s.last(), pid) == 0);
        }
    }
}

/// Every kept line is, by construction, not matched by the request.
pub proof fn lemma_kept_lines_unmatched(s: Seq<CartItemModel>, c: u128, items: Seq<CartItemKey>)
    ensures
        forall|k: int|
            0 <= k < kept_lines(s, c, items).len() ==> !line_matched(
                #[trigger] kept_lines(s, c, items)[k],
                c,
                items,
            ),
    decreases s.len(),
{
    reveal(Seq::filter);
    if s.len() == 0 {
    } else {
        let sd = s.drop_last();
        lemma_kept_lines_unmatched(sd, c, items);
        lemma_bulk_filters_push(sd, s.last(), c, items);
        assert(sd.push(s.last()) =~= s);
        let t = kept_lines(s, c, items);
        let td = kept_lines(sd, c, items);
        if !line_matched(s.last(), c, items) {
            assert(t == td.push(s.last()));
            assert forall|k: int| 0 <= k < t.len() implies !line_matched(
                #[trigger] t[k],
                c,
                items,
            ) by {
                if k < td.len() {
                    assert(t[k] == td[k]);
                } else {
                    assert(t[k] == s.last());
                }
            }
        }
    }
}

/// When no line matches the request, the removal filters change
/// nothing at all.
pub proof fn lemma_filters_of_unmatched(s: Seq<CartItemModel>, c: u128, items: Seq<CartItemKey>)
    requires
        forall|i: int| 0 <= i < s.len() ==> !line_matched(#[trigger] s[i], c, items),
    ensures
        kept_lines(s, c, items) == s,
        removed_lines(s, c, items) =~= Seq::<CartItemModel>::empty(),
    decreases s.len(),
{
    reveal(Seq::filter);
    if s.len() == 0 {
        assert(kept_lines(s, c, items) =~= s);
    } else {
        let sd = s.drop_last();
        assert(forall|i: int| 0 <= i < sd.len() ==> sd[i] == s[i]);
        lemma_filters_of_unmatched(sd, c, items);
        lemma_bulk_filters_push(sd, s.last(), c, items);
        assert(sd.push(s.last()) =~= s);
        assert(kept_lines(s, c, items) == sd.push(s.last()));
    }
}

// ---------------------------------------------------------------------------
// Cart lookup / creation
// ---------------------------------------------------------------------------

/// The transition of finding or creating the open cart of a user with
/// a caller-supplied candidate identifier for the creation case.
pub open spec fn get_or_create_post(
    pre: Store,
    post: Store,
    user_id: u128,
    new_id: u128,
    now: i64,
    r: Result<CartModel, CartError>,
) -> bool {
    if has_open_cart(pre.carts@, user_id) {
        r == Ok::<CartModel, CartError>(pre.carts@[open_cart_index(pre.carts@, user_id)]) && post
            == pre
    } else if has_cart(pre.carts@, new_id) {
        r == Err::<CartModel, CartError>(CartError::DuplicateId) && post == pre
    } else {
        let nc = CartModel {
            id: new_id,
            user_id,
            status: CartStatus::Open,
            created_at: now,
            updated_at: now,
        };
        &&& r == Ok::<CartModel, CartError>(nc)
        &&& post.carts@ == pre.carts@.push(nc)
        &&& post.products@ == pre.products@
        &&& post.lines@ == pre.lines@
    }
}

impl Store {
    /// Tests whether a removal request names `pid`.
    fn items_contain_product(items: &Vec<CartItemKey>, pid: u128) -> (r: bool)
        ensures
            r == items_name_product(items@, pid),
    {
        let n = items.len();
        let mut i: usize = 0;
        while i < n
            invariant
                0 <= i <= n == items@.len(),
                forall|j: int| 0 <= j < i ==> (#[trigger] items@[j]).product_id != pid,
            decreases n - i,
        {
            if items[i].product_id == pid {
                return true;
            }
            i = i + 1;
        }
        false
    }

    /// Removes every line of one open cart that the request names,
    /// returning each removed line's reservation to the ledger.
    ///
    /// Fails with `NoItems` for an empty request, `MixedCarts` when
    /// the entries name different carts, `NotFound` for an unknown
    /// cart and `CartClosed` for a cart that is not open; the store is
    /// then unchanged. Requested products without a matching line are
    /// ignored, which makes the removal idempotent.
    pub fn bulk_remove(&mut self, items: &Vec<CartItemKey>, now: i64) -> (r: Result<
        (),
        CartError,
    >)
        requires
            old(self).wf(),
        ensures
            final(self).wf(),
            bulk_remove_post(*old(self), *final(self), items@, now, r),
    {
        if items.len() == 0 {
            return Err(CartError::NoItems);
        }
        let c = items[0].cart_id;
        let n_items = items.len();
        let mut i: usize = 1;
        while i < n_items
            invariant
                1 <= i <= n_items == items@.len(),
                old(self).wf(),
                *self == *old(self),
                c == items@[0].cart_id,
                forall|j: int| 0 <= j < i ==> (#[trigger] items@[j]).cart_id == c,
            decreases n_items - i,
        {
            if items[i].cart_id != c {
                return Err(CartError::MixedCarts);
            }
            i = i + 1;
        }
        let cidx = match self.find_cart(c) {
            Some(ci) => ci,
            None => {
                return Err(CartError::NotFound);
            },
        };
        if !matches!(self.carts[cidx].status, CartStatus::Open) {
            return Err(CartError::CartClosed);
        }
        let ghost pre = *self;
        let mut kept: Vec<CartItemModel> = Vec::new();
        let n_lines = self.lines.len();
        let mut j: usize = 0;
        while j < n_lines
            invariant
                0 <= j <= n_lines == pre.lines@.len(),
                pre.wf(),
                self.lines@ == pre.lines@,
                self.carts@ == pre.carts@,
                same_product_ids(pre.products@, self.products@),
                product_ids_distinct(self.products@),
                kept@ == kept_lines(pre.lines@.subrange(0, j as int), c, items@),
                self.products@.len() == pre.products@.len(),
                forall|k: int|
                    0 <= k < pre.products@.len() ==> {
                        let rel = reserved_for(
                            removed_lines(pre.lines@.subrange(0, j as int), c, items@),
                            pre.products@[k].id,
                        );
                        #[trigger] self.products@[k] == if rel > 0 {
                            product_with(
                                pre.products@[k],
                                (pre.products@[k].quantity + rel) as u32,
                                now,
                            )
                        } else {
                            pre.products@[k]
                        }
                    },
            decreases n_lines - j,
        {
            let ghost prefix = pre.lines@.subrange(0, j as int);
            let l = self.lines[j];
            proof {
                assert(pre.lines@.subrange(0, j + 1).drop_last() =~= prefix);
                assert(pre.lines@.subrange(0, j + 1).last() == l);
                assert(prefix.push(l) =~= pre.lines@.subrange(0, j + 1));
                lemma_bulk_filters_push(prefix, l, c, items@);
            }
            if l.cart_id == c && Self::items_contain_product(items, l.product_id) {
                // This line is removed: its reservation returns to stock.
                let pid = l.product_id;
                proof {
                    assert(line_matched(l, c, items@));
                    // No earlier line of this cart holds the same product,
                    // so its product's ledger entry is still untouched.
                    assert(forall|m: int|
                        0 <= m < prefix.len() ==> !((#[trigger] prefix[m]).cart_id == c
                            && prefix[m].product_id == pid));
                    lemma_removed_nothing_of(prefix, c, items@, pid);
                    assert(has_product(pre.products@, pid));
                    let k = product_index(pre.products@, pid);
                    lemma_product_index_of(pre.products@, k);
                    assert(self.products@[k] == pre.products@[k]);
                    lemma_line_le_reserved(pre.lines@, j as int, pid);
                    assert(pre.products@[k].quantity + l.quantity <= u32::MAX);
                    lemma_same_ids_lookup(pre.products@, self.products@, pid);
                }
                let ghost mid = self.products@;
                self.release_stock(pid, l.quantity, now);
                proof {
                    let k = product_index(pre.products@, pid);
                    lemma_same_ids_lookup(pre.products@, mid, pid);
                    assert(self.products@ == mid.update(
                        k,
                        product_with(mid[k], (mid[k].quantity + l.quantity) as u32, now),
                    ));
                    assert(same_product_ids(pre.products@, self.products@));
                    let ghost next = pre.lines@.subrange(0, j + 1);
                    assert forall|m: int| 0 <= m < pre.products@.len() implies {
                        let rel = reserved_for(
                            removed_lines(next, c, items@),
                            pre.products@[m].id,
                        );
                        #[trigger] self.products@[m] == if rel > 0 {
                            product_with(
                                pre.products@[m],
                                (pre.products@[m].quantity + rel) as u32,
                                now,
                            )
                        } else {
                            pre.products@[m]
                        }
                    } by {
                        lemma_reserved_push(removed_lines(prefix, c, items@), l, pre.products@[m].id);
                        lemma_product_index_of(pre.products@, m);
                        if pre.products@[m].id == pid {
                            assert(m == k);
                            assert(line_contrib(l, pid) == l.quantity as int);
                        } else {
                            assert(line_contrib(l, pre.products@[m].id) == 0);
                            assert(self.products@[m] == mid[m]);
                        }
                    }
                }
            } else {
                kept.push(l);
                proof {
                    assert(!line_matched(l, c, items@));
                    assert(kept@ == kept_lines(pre.lines@.subrange(0, j + 1), c, items@));
                }
            }
            j = j + 1;
        }
        proof {
            assert(pre.lines@.subrange(0, n_lines as int) =~= pre.lines@);
        }
        self.lines = kept;
        proof {
            let post = *self;
            lemma_kept_lines_props(pre.lines@, c, items@);
            // Every kept line still references an existing product.
            assert forall|k: int| 0 <= k < post.lines@.len() implies has_product(
                post.products@,
                (#[trigger] post.lines@[k]).product_id,
            ) by {
                assert(post.lines@[k] == kept_lines(pre.lines@, c, items@)[k]);
                assert(exists|m: int|
                    0 <= m < pre.lines@.len() && kept_lines(pre.lines@, c, items@)[k]
                        == pre.lines@[m]);
                let m = choose|m: int|
                    0 <= m < pre.lines@.len() && kept_lines(pre.lines@, c, items@)[k]
                        == pre.lines@[m];
                assert(post.lines@[k] == pre.lines@[m]);
                lemma_same_ids_lookup(pre.products@, post.products@, pre.lines@[m].product_id);
            }
            // The per-product stock cap is maintained: what was released
            // is exactly what the removed lines no longer reserve.
            assert forall|k: int| 0 <= k < post.products@.len() implies (#[trigger] post
                .products@[k]).quantity + reserved_for(post.lines@, post.products@[k].id)
                <= u32::MAX by {
                lemma_product_index_of(pre.products@, k);
                lemma_removed_kept_split(pre.lines@, c, items@, pre.products@[k].id);
                lemma_reserved_nonneg(removed_lines(pre.lines@, c, items@), pre.products@[k].id);
                lemma_reserved_nonneg(kept_lines(pre.lines@, c, items@), pre.products@[k].id);
            }
        }
        Ok(())
    }

    /// Finds the user's open cart, or creates one under the supplied
    /// identifier when the user has none.
    ///
    /// Fails with `DuplicateId` when a cart must be created but the
    /// candidate identifier is already taken; the store is then
    /// unchanged.
    pub fn get_or_create_open_cart_with(&mut self, user_id: u128, new_id: u128, now: i64) -> (r:
        Result<CartModel, CartError>)
        requires
            old(self).wf(),
        ensures
            final(self).wf(),
            get_or_create_post(*old(self), *final(self), user_id, new_id, now, r),
    {
        match self.find_open_cart(user_id) {
            Some(i) => Ok(self.carts[i]),
            None => {
                if self.find_cart(new_id).is_some() {
                    return Err(CartError::DuplicateId);
                }
                let ghost pre = *self;
                let nc = CartModel {
                    id: new_id,
                    user_id,
                    status: CartStatus::Open,
                    created_at: now,
                    updated_at: now,
                };
                self.carts.push(nc);
                proof {
                    let s = self.carts@;
                    assert forall|a: int, b: int| 0 <= a < b < s.len() implies s[a].id != s[b].id by {
                        if b == s.len() - 1 {
                            assert(s[a] == pre.carts@[a]);
                            if s[a].id == new_id {
                                assert(has_cart(pre.carts@, new_id));
                            }
                        } else {
                            assert(s[a] == pre.carts@[a] && s[b] == pre.carts@[b]);
                        }
                    }
                    assert forall|a: int, b: int| 0 <= a < b < s.len() implies !(s[a].user_id
                        == s[b].user_id && s[a].status is Open && s[b].status is Open) by {
                        if b == s.len() - 1 {
                            assert(s[a] == pre.carts@[a]);
                            if s[a].user_id == user_id && s[a].status is Open {
                                assert(has_open_cart(pre.carts@, user_id));
                            }
                        } else {
                            assert(s[a] == pre.carts@[a] && s[b] == pre.carts@[b]);
                        }
                    }
                }
                Ok(nc)
            },
        }
    }

    /// Finds the user's open cart, or creates one under a freshly
    /// generated identifier when the user has none.
    ///
    /// An existing open cart is always returned unchanged. Creation
    /// fails only if the generated identifier collides with an
    /// existing cart, as the storage layer's key constraint would.
    pub fn get_or_create_open_cart(&mut self, user_id: u128, now: i64) -> (r: Result<
        CartModel,
        CartError,
    >)
        requires
            old(self).wf(),
        ensures
            final(self).wf(),
            exists|new_id: u128|
                get_or_create_post(*old(self), *final(self), user_id, new_id, now, r),
            has_open_cart(old(self).carts@, user_id) ==> r == Ok::<CartModel, CartError>(
                old(self).carts@[open_cart_index(old(self).carts@, user_id)],
            ) && *final(self) == *old(self),
    {
        let new_id = crate::runtime::fresh_id();
        let r = self.get_or_create_open_cart_with(user_id, new_id, now);
        proof {
            assert(get_or_create_post(*old(self), *self, user_id, new_id, now, r));
        }
        r
    }
}

} // verus!
