//! The read path: assembling carts together with their lines and
//! product snapshots into display views. Pure projection, no mutation.

use crate::models::{
    CartItemModel, CartItemWithProductModel, CartModel, CartWithItemsModel, ProductModel,
    items_total,
};
use crate::store::{
    Store, has_open_cart, has_product, open_cart_index, product_index,
};
use vstd::prelude::*;

verus! {

/// The joined view of one line with its product snapshot.
pub open spec fn joined_item(l: CartItemModel, p: ProductModel) -> CartItemWithProductModel {
    CartItemWithProductModel {
        cart_id: l.cart_id,
        product_id: l.product_id,
        quantity: l.quantity,
        unit_amount: l.unit_amount,
        product: p,
        created_at: l.created_at,
        updated_at: l.updated_at,
    }
}

/// The lines of cart `cart_id` joined with their products, in stored
/// order. A line whose product is unknown is dropped, as an inner
/// join would drop it.
pub open spec fn snapshot_items(
    lines: Seq<CartItemModel>,
    products: Seq<ProductModel>,
    cart_id: u128,
) -> Seq<CartItemWithProductModel>
    decreases lines.len(),
{
    if lines.len() == 0 {
        Seq::empty()
    } else {
        let rest = snapshot_items(lines.drop_last(), products, cart_id);
        let l = lines.last();
        if l.cart_id == cart_id && has_product(products, l.product_id) {
            rest.push(joined_item(l, products[product_index(products, l.product_id)]))
        } else {
            rest
        }
    }
}

/// A user's carts, in creation order.
pub open spec fn user_carts(carts: Seq<CartModel>, user_id: u128) -> Seq<CartModel> {
    carts.filter(|c: CartModel| c.user_id == user_id)
}

/// What a correct display view of `cart` holds: the cart's own
/// fields, its joined lines, and the total recomputed from them.
pub open spec fn view_of_cart(
    v: CartWithItemsModel,
    cart: CartModel,
    lines: Seq<CartItemModel>,
    products: Seq<ProductModel>,
) -> bool {
    &&& v.id == cart.id
    &&& v.user_id == cart.user_id
    &&& v.status == cart.status
    &&& v.created_at == cart.created_at
    &&& v.updated_at == cart.updated_at
    &&& v.items@ == snapshot_items(lines, products, cart.id)
    &&& v.total_amount == if items_total(v.items@) <= u128::MAX {
        items_total(v.items@)
    } else {
        u128::MAX as int
    }
}

/// How appending one cart extends a user's cart list.
proof fn lemma_user_carts_push(s: Seq<CartModel>, c: CartModel, user_id: u128)
    ensures
        user_carts(s.push(c), user_id) == if c.user_id == user_id {
            user_carts(s, user_id).push(c)
        } else {
            user_carts(s, user_id)
        },
{
    reveal(Seq::filter);
    assert(s.push(c).drop_last() =~= s);
    assert(s.push(c).last() == c);
}

impl Store {
    /// Collects the joined line views of one cart, in stored order.
    fn items_for_cart(&self, cart_id: u128) -> (items: Vec<CartItemWithProductModel>)
        requires
            self.wf(),
        ensures
            items@ == snapshot_items(self.lines@, self.products@, cart_id),
    {
        let mut items: Vec<CartItemWithProductModel> = Vec::new();
        let n = self.lines.len();
        let mut j: usize = 0;
        while j < n
            invariant
                0 <= j <= n == self.lines@.len(),
                self.wf(),
                items@ == snapshot_items(
                    self.lines@.subrange(0, j as int),
                    self.products@,
                    cart_id,
                ),
            decreases n - j,
        {
            let ghost prefix = self.lines@.subrange(0, j as int);
            let l = self.lines[j];
            proof {
                assert(self.lines@.subrange(0, j + 1).drop_last() =~= prefix);
                assert(self.lines@.subrange(0, j + 1).last() == l);
            }
            if l.cart_id == cart_id {
                match self.find_product(l.product_id) {
                    Some(pi) => {
                        let p = self.products[pi].clone();
                        items.push(
                            CartItemWithProductModel {
                                cart_id: l.cart_id,
                                product_id: l.product_id,
                                quantity: l.quantity,
                                unit_amount: l.unit_amount,
                                product: p,
                                created_at: l.created_at,
                                updated_at: l.updated_at,
                            },
                        );
                    },
                    None => {
                        // Well-formedness rules orphan lines out; an inner
                        // join would simply skip one.
                        proof {
                            assert(false);
                        }
                    },
                }
            }
            j = j + 1;
        }
        proof {
            assert(self.lines@.subrange(0, n as int) =~= self.lines@);
        }
        items
    }

    /// Returns the view of the user's open cart — the cart, its lines
    /// joined with product snapshots, and the recomputed total — or
    /// `None` when the user has no open cart.
    pub fn get_open_cart(&self, user_id: u128) -> (r: Option<CartWithItemsModel>)
        requires
            self.wf(),
        ensures
            match r {
                None => !has_open_cart(self.carts@, user_id),
                Some(v) => has_open_cart(self.carts@, user_id) && view_of_cart(
                    v,
                    self.carts@[open_cart_index(self.carts@, user_id)],
                    self.lines@,
                    self.products@,
                ),
            },
    {
        let cidx = match self.find_open_cart(user_id) {
            Some(i) => i,
            None => {
                return None;
            },
        };
        let cart = self.carts[cidx];
        let items = self.items_for_cart(cart.id);
        Some(CartWithItemsModel::new(cart, items))
    }

    /// Returns the views of all of the user's carts, open and closed,
    /// in creation order.
    pub fn get_carts_by_user(&self, user_id: u128) -> (r: Vec<CartWithItemsModel>)
        requires
            self.wf(),
        ensures
            r@.len() == user_carts(self.carts@, user_id).len(),
            forall|k: int|
                0 <= k < r@.len() ==> view_of_cart(
                    #[trigger] r@[k],
                    user_carts(self.carts@, user_id)[k],
                    self.lines@,
                    self.products@,
                ),
    {
        let mut out: Vec<CartWithItemsModel> = Vec::new();
        let n = self.carts.len();
        let mut i: usize = 0;
        while i < n
            invariant
                0 <= i <= n == self.carts@.len(),
                self.wf(),
                out@.len() == user_carts(self.carts@.subrange(0, i as int), user_id).len(),
                forall|k: int|
                    0 <= k < out@.len() ==> view_of_cart(
                        #[trigger] out@[k],
                        user_carts(self.carts@.subrange(0, i as int), user_id)[k],
                        self.lines@,
                        self.products@,
                    ),
            decreases n - i,
        {
            let ghost prefix = self.carts@.subrange(0, i as int);
            let c = self.carts[i];
            proof {
                assert(prefix.push(c) =~= self.carts@.subrange(0, i + 1));
                lemma_user_carts_push(prefix, c, user_id);
            }
            if c.user_id == user_id {
                let items = self.items_for_cart(c.id);
                let v = CartWithItemsModel::new(c, items);
                out.push(v);
            }
            i = i + 1;
        }
        proof {
            assert(self.carts@.subrange(0, n as int) =~= self.carts@);
        }
        out
    }
}

} // verus!
