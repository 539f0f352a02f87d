//! Global properties of the reconciler, proved from the operations'
//! transition predicates alone.
//!
//! The central law is conservation: no cart operation creates or
//! destroys stock — for every product, available stock plus reserved
//! stock is the same before and after. Together with the operations'
//! own contracts this gives: removal is idempotent, a quantity change
//! to the just-added quantity is a no-op, deleting a line restores its
//! whole reservation, and a series of additions can never hand out
//! more stock than was available at the start, in whatever order the
//! row locks serialized them.

use crate::errors::CartError;
use crate::models::CartItemModel;
use crate::reconciler::{
    add_item_post, bulk_remove_post, kept_lines, lemma_filters_of_unmatched,
    lemma_same_ids_lookup, line_matched, line_with, product_with, products_released,
    removed_lines, same_product_ids, set_quantity_post, CartItemKey, SetQuantityOutcome,
};
use crate::store::{
    avail_of, cart_index, has_cart, has_line, has_product, lemma_line_index_of,
    lemma_line_le_reserved, lemma_product_index_of, lemma_reserved_nonneg, lemma_reserved_push,
    lemma_reserved_remove, lemma_reserved_update, lemma_reserved_zero, line_index,
    product_ids_distinct, product_index, reserved_for, Store,
};
use vstd::prelude::*;

verus! {

// ---------------------------------------------------------------------------
// Helpers
// ---------------------------------------------------------------------------

/// Replacing one product's quantity changes exactly that product's
/// available stock.
proof fn lemma_avail_update(s: Seq<crate::models::ProductModel>, pi: int, q: u32, now: i64, pid: u128)
    requires
        product_ids_distinct(s),
        0 <= pi < s.len(),
    ensures
        avail_of(s.update(pi, product_with(s[pi], q, now)), pid) == if pid == s[pi].id {
            q as int
        } else {
            avail_of(s, pid)
        },
{
    let t = s.update(pi, product_with(s[pi], q, now));
    assert(same_product_ids(s, t));
    assert forall|a: int, b: int| 0 <= a < b < t.len() implies t[a].id != t[b].id by {
        assert(t[a].id == s[a].id && t[b].id == s[b].id);
    }
    lemma_same_ids_lookup(s, t, pid);
    if pid == s[pi].id {
        lemma_product_index_of(s, pi);
        lemma_product_index_of(t, pi);
    } else {
        if has_product(s, pid) {
            let k = product_index(s, pid);
            assert(k != pi);
            assert(t[k] == s[k]);
        }
    }
}

/// A released reservation moves exactly `amount` units of `pid` back
/// into availability.
proof fn lemma_avail_released(
    pre: Seq<crate::models::ProductModel>,
    post: Seq<crate::models::ProductModel>,
    p: u128,
    amount: int,
    now: i64,
    pid: u128,
)
    requires
        product_ids_distinct(pre),
        products_released(pre, post, p, amount, now),
        has_product(pre, p),
        avail_of(pre, p) + amount <= u32::MAX,
        amount >= 0,
    ensures
        avail_of(post, pid) == if pid == p {
            avail_of(pre, pid) + amount
        } else {
            avail_of(pre, pid)
        },
{
    let pi = product_index(pre, p);
    lemma_avail_update(pre, pi, (pre[pi].quantity + amount) as u32, now, pid);
}

/// The line found for `(c, p)` indeed has that key.
proof fn lemma_line_at_index(s: Seq<CartItemModel>, c: u128, p: u128)
    requires
        has_line(s, c, p),
    ensures
        0 <= line_index(s, c, p) < s.len(),
        s[line_index(s, c, p)].cart_id == c,
        s[line_index(s, c, p)].product_id == p,
{
}

// ---------------------------------------------------------------------------
// Conservation: no operation creates or destroys stock
// ---------------------------------------------------------------------------

/// Whatever `add_item` returns, for every product the available stock
/// plus the reserved stock is exactly what it was before.
pub proof fn lemma_add_item_conserves_stock(
    pre: Store,
    post: Store,
    c: u128,
    p: u128,
    quantity: u32,
    unit_amount: u64,
    now: i64,
    r: Result<CartItemModel, CartError>,
)
    requires
        pre.wf(),
        add_item_post(pre, post, c, p, quantity, unit_amount, now, r),
    ensures
        forall|pid: u128| post.stock_of(pid) == pre.stock_of(pid),
{
    assert forall|pid: u128| post.stock_of(pid) == pre.stock_of(pid) by {
        if quantity == 0 || !has_product(pre.products@, p) {
        } else {
            let pi = product_index(pre.products@, p);
            let prod = pre.products@[pi];
            if prod.quantity < quantity {
            } else if has_line(pre.lines@, c, p) {
                let i = line_index(pre.lines@, c, p);
                lemma_line_at_index(pre.lines@, c, p);
                let nl = line_with(
                    pre.lines@[i],
                    (pre.lines@[i].quantity + quantity) as u32,
                    unit_amount,
                    now,
                );
                lemma_reserved_update(pre.lines@, i, nl, pid);
                lemma_avail_update(
                    pre.products@,
                    pi,
                    (prod.quantity - quantity) as u32,
                    now,
                    pid,
                );
                // The new quantity fits the counter, so the ledger and the
                // line move by the same amount.
                lemma_line_le_reserved(pre.lines@, i, p);
            } else {
                let nl = CartItemModel {
                    cart_id: c,
                    product_id: p,
                    quantity,
                    unit_amount,
                    created_at: now,
                    updated_at: now,
                };
                lemma_reserved_push(pre.lines@, nl, pid);
                lemma_avail_update(
                    pre.products@,
                    pi,
                    (prod.quantity - quantity) as u32,
                    now,
                    pid,
                );
            }
        }
    }
}

/// Whatever `set_quantity` returns, for every product the available
/// stock plus the reserved stock is exactly what it was before.
pub proof fn lemma_set_quantity_conserves_stock(
    pre: Store,
    post: Store,
    c: u128,
    p: u128,
    new_quantity: u32,
    unit_amount: u64,
    now: i64,
    r: Result<SetQuantityOutcome, CartError>,
)
    requires
        pre.wf(),
        set_quantity_post(pre, post, c, p, new_quantity, unit_amount, now, r),
    ensures
        forall|pid: u128| post.stock_of(pid) == pre.stock_of(pid),
{
    if !has_line(pre.lines@, c, p) {
        return ;
    }
    let i = line_index(pre.lines@, c, p);
    lemma_line_at_index(pre.lines@, c, p);
    let oldl = pre.lines@[i];
    // The line's product exists, so releases really reach the ledger.
    assert(has_product(pre.products@, p));
    let pi = product_index(pre.products@, p);
    lemma_product_index_of(pre.products@, pi);
    assert forall|pid: u128| post.stock_of(pid) == pre.stock_of(pid) by {
        lemma_line_le_reserved(pre.lines@, i, p);
        if new_quantity == 0 {
            lemma_reserved_remove(pre.lines@, i, pid);
            lemma_avail_released(
                pre.products@,
                post.products@,
                p,
                oldl.quantity as int,
                now,
                pid,
            );
        } else if new_quantity > oldl.quantity {
            if pre.products@[pi].quantity < new_quantity - oldl.quantity {
            } else {
                let nl = line_with(oldl, new_quantity, unit_amount, now);
                lemma_reserved_update(pre.lines@, i, nl, pid);
                lemma_avail_update(
                    pre.products@,
                    pi,
                    (pre.products@[pi].quantity - (new_quantity - oldl.quantity)) as u32,
                    now,
                    pid,
                );
            }
        } else if new_quantity == oldl.quantity {
            let nl = line_with(oldl, new_quantity, unit_amount, now);
            lemma_reserved_update(pre.lines@, i, nl, pid);
        } else {
            let nl = line_with(oldl, new_quantity, unit_amount, now);
            lemma_reserved_update(pre.lines@, i, nl, pid);
            lemma_avail_released(
                pre.products@,
                post.products@,
                p,
                oldl.quantity - new_quantity,
                now,
                pid,
            );
        }
    }
}

/// Whatever `bulk_remove` returns, for every product the available
/// stock plus the reserved stock is exactly what it was before.
pub proof fn lemma_bulk_remove_conserves_stock(
    pre: Store,
    post: Store,
    items: Seq<CartItemKey>,
    now: i64,
    r: Result<(), CartError>,
)
    requires
        pre.wf(),
        bulk_remove_post(pre, post, items, now, r),
    ensures
        forall|pid: u128| post.stock_of(pid) == pre.stock_of(pid),
{
    if items.len() == 0 || !crate::reconciler::all_same_cart(items) {
        return ;
    }
    let c = items[0].cart_id;
    if !has_cart(pre.carts@, c) || !(pre.carts@[cart_index(pre.carts@, c)].status is Open) {
        return ;
    }
    assert(same_product_ids(pre.products@, post.products@)) by {
        assert forall|k: int| 0 <= k < pre.products@.len() implies (#[trigger] post.products@[k]).id
            == pre.products@[k].id by {}
    }
    assert forall|pid: u128| post.stock_of(pid) == pre.stock_of(pid) by {
        crate::reconciler::lemma_removed_kept_split(pre.lines@, c, items, pid);
        lemma_same_ids_lookup(pre.products@, post.products@, pid);
        lemma_reserved_nonneg(removed_lines(pre.lines@, c, items), pid);
        lemma_reserved_nonneg(kept_lines(pre.lines@, c, items), pid);
        if has_product(pre.products@, pid) {
            let k = product_index(pre.products@, pid);
            lemma_product_index_of(pre.products@, k);
            assert forall|a: int, b: int| 0 <= a < b < post.products@.len() implies post
                .products@[a].id != post.products@[b].id by {
                assert(post.products@[a].id == pre.products@[a].id);
                assert(post.products@[b].id == pre.products@[b].id);
            }
            lemma_product_index_of(post.products@, k);
            let rel = reserved_for(removed_lines(pre.lines@, c, items), pid);
            // The released amount fits the counter: it is at most what
            // all lines reserved, and the cap bounded their sum.
            assert(pre.products@[k].quantity + reserved_for(pre.lines@, pid) <= u32::MAX);
            assert(post.products@[k] == if rel > 0 {
                product_with(pre.products@[k], (pre.products@[k].quantity + rel) as u32, now)
            } else {
                pre.products@[k]
            });
            assert(avail_of(post.products@, pid) == pre.products@[k].quantity + rel);
        } else {
            // A product that does not exist has no lines under
            // well-formedness, so nothing of it was reserved or released.
            assert(forall|i: int|
                0 <= i < pre.lines@.len() ==> (#[trigger] pre.lines@[i]).product_id != pid);
            lemma_reserved_zero(pre.lines@, pid);
            lemma_reserved_nonneg(removed_lines(pre.lines@, c, items), pid);
            lemma_reserved_nonneg(kept_lines(pre.lines@, c, items), pid);
        }
    }
}

// ---------------------------------------------------------------------------
// Conservation over whole histories
// ---------------------------------------------------------------------------

/// One reconciler mutation together with its arguments and result,
/// for reasoning about histories of operations.
pub enum CartOp {
    AddItem {
        cart_id: u128,
        product_id: u128,
        quantity: u32,
        unit_amount: u64,
        now: i64,
        r: Result<CartItemModel, CartError>,
    },
    SetQuantity {
        cart_id: u128,
        product_id: u128,
        new_quantity: u32,
        unit_amount: u64,
        now: i64,
        r: Result<SetQuantityOutcome, CartError>,
    },
    BulkRemove { items: Seq<CartItemKey>, now: i64, r: Result<(), CartError> },
}

/// Whether `post` is the state that performing `op` on `pre` leaves.
pub open spec fn cart_op_post(pre: Store, post: Store, op: CartOp) -> bool {
    match op {
        CartOp::AddItem { cart_id, product_id, quantity, unit_amount, now, r } => add_item_post(
            pre,
            post,
            cart_id,
            product_id,
            quantity,
            unit_amount,
            now,
            r,
        ),
        CartOp::SetQuantity {
            cart_id,
            product_id,
            new_quantity,
            unit_amount,
            now,
            r,
        } => set_quantity_post(pre, post, cart_id, product_id, new_quantity, unit_amount, now, r),
        CartOp::BulkRemove { items, now, r } => bulk_remove_post(pre, post, items, now, r),
    }
}

/// No single mutation creates or destroys stock.
pub proof fn lemma_cart_op_conserves_stock(pre: Store, post: Store, op: CartOp)
    requires
        pre.wf(),
        cart_op_post(pre, post, op),
    ensures
        forall|pid: u128| post.stock_of(pid) == pre.stock_of(pid),
{
    match op {
        CartOp::AddItem { cart_id, product_id, quantity, unit_amount, now, r } => {
            lemma_add_item_conserves_stock(
                pre,
                post,
                cart_id,
                product_id,
                quantity,
                unit_amount,
                now,
                r,
            );
        },
        CartOp::SetQuantity { cart_id, product_id, new_quantity, unit_amount, now, r } => {
            lemma_set_quantity_conserves_stock(
                pre,
                post,
                cart_id,
                product_id,
                new_quantity,
                unit_amount,
                now,
                r,
            );
        },
        CartOp::BulkRemove { items, now, r } => {
            lemma_bulk_remove_conserves_stock(pre, post, items, now, r);
        },
    }
}

/// For every product, available stock plus reserved stock equals the
/// total owned stock after any sequence of additions, quantity
/// changes and removals: every unit is either available or reserved
/// by exactly one cart line, never both and never neither.
pub proof fn lemma_history_conserves_stock(states: Seq<Store>, ops: Seq<CartOp>)
    requires
        states.len() == ops.len() + 1,
        forall|i: int| 0 <= i < ops.len() ==> (#[trigger] states[i]).wf(),
        forall|i: int| 0 <= i < ops.len() ==> cart_op_post(states[i], states[i + 1], #[trigger] ops[i]),
    ensures
        forall|pid: u128| states.last().stock_of(pid) == states[0].stock_of(pid),
    decreases ops.len(),
{
    if ops.len() == 0 {
        assert(states.last() == states[0]);
    } else {
        let n = ops.len() as int;
        let states2 = states.drop_last();
        let ops2 = ops.drop_last();
        assert(forall|i: int| 0 <= i < states2.len() ==> states2[i] == states[i]);
        assert forall|i: int| 0 <= i < ops2.len() implies cart_op_post(
            states2[i],
            states2[i + 1],
            #[trigger] ops2[i],
        ) by {
            assert(cart_op_post(states[i], states[i + 1], ops[i]));
        }
        lemma_history_conserves_stock(states2, ops2);
        assert(states2.last() == states[n - 1]);
        assert(cart_op_post(states[n - 1], states[n], ops[n - 1]));
        lemma_cart_op_conserves_stock(states[n - 1], states[n], ops[n - 1]);
        assert(states.last() == states[n]);
    }
}

// ---------------------------------------------------------------------------
// Idempotence of bulk removal
// ---------------------------------------------------------------------------

/// Removing the same items twice ends in the same state as removing
/// them once: the second call succeeds and is a no-op.
pub proof fn lemma_bulk_remove_idempotent(
    s0: Store,
    s1: Store,
    s2: Store,
    items: Seq<CartItemKey>,
    now1: i64,
    now2: i64,
    r2: Result<(), CartError>,
)
    requires
        s0.wf(),
        bulk_remove_post(s0, s1, items, now1, Ok(())),
        bulk_remove_post(s1, s2, items, now2, r2),
    ensures
        r2 == Ok::<(), CartError>(()),
        s2.carts@ == s1.carts@,
        s2.lines@ == s1.lines@,
        s2.products@ == s1.products@,
{
    // The first call succeeded, so none of the rejections applied.
    if items.len() == 0 {
        assert(false);
    }
    if !crate::reconciler::all_same_cart(items) {
        assert(false);
    }
    let c = items[0].cart_id;
    if !has_cart(s0.carts@, c) {
        assert(false);
    }
    if !(s0.carts@[cart_index(s0.carts@, c)].status is Open) {
        assert(false);
    }
    // After the first removal no line matches the request any more.
    crate::reconciler::lemma_kept_lines_unmatched(s0.lines@, c, items);
    assert(forall|i: int|
        0 <= i < s1.lines@.len() ==> !line_matched(#[trigger] s1.lines@[i], c, items)) by {
        assert(forall|i: int|
            0 <= i < kept_lines(s0.lines@, c, items).len() ==> !line_matched(
                #[trigger] kept_lines(s0.lines@, c, items)[i],
                c,
                items,
            ));
    }
    lemma_filters_of_unmatched(s1.lines@, c, items);
    // The cart is still there and still open.
    assert(s1.carts@ == s0.carts@);
    assert(r2 == Ok::<(), CartError>(()));
    assert(s2.lines@ == kept_lines(s1.lines@, c, items));
    assert(s2.lines@ == s1.lines@);
    assert forall|k: int| 0 <= k < s1.products@.len() implies #[trigger] s2.products@[k]
        == s1.products@[k] by {
        lemma_reserved_zero(removed_lines(s1.lines@, c, items), s1.products@[k].id);
    }
    assert(s2.products@ =~= s1.products@);
}

// ---------------------------------------------------------------------------
// Round trip: add, then set to the same quantity
// ---------------------------------------------------------------------------

/// After adding a product to a cart that did not hold it, setting the
/// line to the very quantity and price just added changes nothing:
/// the stock and the line state stay exactly as after the addition.
pub proof fn lemma_add_then_set_roundtrip(
    s0: Store,
    s1: Store,
    s2: Store,
    c: u128,
    p: u128,
    quantity: u32,
    unit_amount: u64,
    now: i64,
    line: CartItemModel,
    r2: Result<SetQuantityOutcome, CartError>,
)
    requires
        s0.wf(),
        s1.wf(),
        !has_line(s0.lines@, c, p),
        add_item_post(s0, s1, c, p, quantity, unit_amount, now, Ok(line)),
        set_quantity_post(s1, s2, c, p, quantity, unit_amount, now, r2),
    ensures
        r2 == Ok::<SetQuantityOutcome, CartError>(SetQuantityOutcome::Updated(line)),
        s2.carts@ == s1.carts@,
        s2.lines@ == s1.lines@,
        s2.products@ == s1.products@,
{
    // The addition created a fresh line with exactly this quantity.
    if quantity == 0 {
        assert(false);
    }
    if !has_product(s0.products@, p) {
        assert(false);
    }
    let nl = CartItemModel {
        cart_id: c,
        product_id: p,
        quantity,
        unit_amount,
        created_at: now,
        updated_at: now,
    };
    assert(line == nl);
    assert(s1.lines@ == s0.lines@.push(nl));
    let i = (s1.lines@.len() - 1) as int;
    assert(s1.lines@[i] == nl);
    lemma_line_index_of(s1.lines@, i);
    assert(line_index(s1.lines@, c, p) == i);
    // The second call hits the no-movement branch: the target equals
    // the stored quantity, so the line is rewritten to itself.
    assert(line_with(nl, quantity, unit_amount, now) == nl);
    assert(s2.lines@ == s1.lines@.update(i, nl));
    assert(s2.lines@ =~= s1.lines@);
}

// ---------------------------------------------------------------------------
// Deleting a line restores its whole reservation
// ---------------------------------------------------------------------------

/// Setting a line's quantity to 0 deletes the line and returns every
/// reserved unit to the product's available stock.
pub proof fn lemma_set_zero_restores(
    s0: Store,
    s1: Store,
    c: u128,
    p: u128,
    unit_amount: u64,
    now: i64,
    r: Result<SetQuantityOutcome, CartError>,
)
    requires
        s0.wf(),
        has_line(s0.lines@, c, p),
        set_quantity_post(s0, s1, c, p, 0, unit_amount, now, r),
    ensures
        r == Ok::<SetQuantityOutcome, CartError>(SetQuantityOutcome::Removed),
        !has_line(s1.lines@, c, p),
        avail_of(s1.products@, p) == avail_of(s0.products@, p) + s0.lines@[line_index(
            s0.lines@,
            c,
            p,
        )].quantity,
        forall|pid: u128| s1.stock_of(pid) == s0.stock_of(pid),
{
    let i = line_index(s0.lines@, c, p);
    lemma_line_at_index(s0.lines@, c, p);
    let oldl = s0.lines@[i];
    assert(has_product(s0.products@, p));
    lemma_line_le_reserved(s0.lines@, i, p);
    let pi = product_index(s0.products@, p);
    lemma_product_index_of(s0.products@, pi);
    lemma_avail_released(s0.products@, s1.products@, p, oldl.quantity as int, now, p);
    // The removed index was the only line with this key.
    assert(!has_line(s1.lines@, c, p)) by {
        if has_line(s1.lines@, c, p) {
            let k = line_index(s1.lines@, c, p);
            lemma_line_at_index(s1.lines@, c, p);
            let m = if k < i {
                k
            } else {
                k + 1
            };
            assert(s1.lines@[k] == s0.lines@[m]);
            assert(false);
        }
    }
    lemma_set_quantity_conserves_stock(s0, s1, c, p, 0, unit_amount, now, r);
}

// ---------------------------------------------------------------------------
// No overselling across any serialization of concurrent additions
// ---------------------------------------------------------------------------

/// One request of a series of additions of the same product.
pub struct AddRequest {
    pub cart_id: u128,
    pub quantity: u32,
    pub unit_amount: u64,
    pub now: i64,
}

/// The total quantity handed out by the successful requests.
pub open spec fn granted_total(
    reqs: Seq<AddRequest>,
    results: Seq<Result<CartItemModel, CartError>>,
) -> int
    decreases reqs.len(),
{
    if reqs.len() == 0 || results.len() != reqs.len() {
        0
    } else {
        granted_total(reqs.drop_last(), results.drop_last()) + if results.last() is Ok {
            reqs.last().quantity as int
        } else {
            0
        }
    }
}

/// One addition takes exactly its quantity out of the available stock
/// when it succeeds, and nothing at all when it fails; a request for
/// more than the available stock of an existing product fails with
/// `InsufficientStock`.
pub proof fn lemma_add_item_moves_avail(
    pre: Store,
    post: Store,
    c: u128,
    p: u128,
    quantity: u32,
    unit_amount: u64,
    now: i64,
    r: Result<CartItemModel, CartError>,
)
    requires
        pre.wf(),
        add_item_post(pre, post, c, p, quantity, unit_amount, now, r),
    ensures
        r is Ok ==> 1 <= quantity <= avail_of(pre.products@, p) && avail_of(post.products@, p)
            == avail_of(pre.products@, p) - quantity,
        r is Err ==> post == pre,
        has_product(pre.products@, p) && quantity > 0 && quantity > avail_of(pre.products@, p)
            ==> r == Err::<CartItemModel, CartError>(CartError::InsufficientStock),
{
    if quantity == 0 || !has_product(pre.products@, p) {
    } else {
        let pi = product_index(pre.products@, p);
        lemma_product_index_of(pre.products@, pi);
        let prod = pre.products@[pi];
        if prod.quantity < quantity {
        } else if has_line(pre.lines@, c, p) {
            lemma_avail_update(pre.products@, pi, (prod.quantity - quantity) as u32, now, p);
        } else {
            lemma_avail_update(pre.products@, pi, (prod.quantity - quantity) as u32, now, p);
        }
    }
}

/// However a set of concurrent additions of one product was
/// serialized by the row locks, the successful ones together receive
/// exactly the stock that left the ledger, and never more than was
/// available at the start: no overselling under any interleaving.
pub proof fn lemma_no_oversell(
    states: Seq<Store>,
    reqs: Seq<AddRequest>,
    results: Seq<Result<CartItemModel, CartError>>,
    p: u128,
)
    requires
        states.len() == reqs.len() + 1,
        results.len() == reqs.len(),
        forall|i: int| 0 <= i < states.len() ==> (#[trigger] states[i]).wf(),
        forall|i: int|
            0 <= i < reqs.len() ==> add_item_post(
                states[i],
                states[i + 1],
                (#[trigger] reqs[i]).cart_id,
                p,
                reqs[i].quantity,
                reqs[i].unit_amount,
                reqs[i].now,
                results[i],
            ),
    ensures
        avail_of(states.last().products@, p) == avail_of(states[0].products@, p) - granted_total(
            reqs,
            results,
        ),
        0 <= granted_total(reqs, results) <= avail_of(states[0].products@, p),
    decreases reqs.len(),
{
    if reqs.len() == 0 {
        assert(states.last() == states[0]);
    } else {
        let n = reqs.len() as int;
        let states2 = states.drop_last();
        let reqs2 = reqs.drop_last();
        let results2 = results.drop_last();
        assert(forall|i: int| 0 <= i < states2.len() ==> states2[i] == states[i]);
        assert(forall|i: int| 0 <= i < reqs2.len() ==> reqs2[i] == reqs[i]);
        assert(forall|i: int| 0 <= i < results2.len() ==> results2[i] == results[i]);
        assert forall|i: int|
            0 <= i < reqs2.len() implies add_item_post(
            states2[i],
            states2[i + 1],
            (#[trigger] reqs2[i]).cart_id,
            p,
            reqs2[i].quantity,
            reqs2[i].unit_amount,
            reqs2[i].now,
            results2[i],
        ) by {
            assert(add_item_post(
                states[i],
                states[i + 1],
                reqs[i].cart_id,
                p,
                reqs[i].quantity,
                reqs[i].unit_amount,
                reqs[i].now,
                results[i],
            ));
        }
        lemma_no_oversell(states2, reqs2, results2, p);
        assert(states2.last() == states[n - 1]);
        lemma_add_item_moves_avail(
            states[n - 1],
            states[n],
            reqs[n - 1].cart_id,
            p,
            reqs[n - 1].quantity,
            reqs[n - 1].unit_amount,
            reqs[n - 1].now,
            results[n - 1],
        );
        assert(states.last() == states[n]);
    }
}

} // verus!
