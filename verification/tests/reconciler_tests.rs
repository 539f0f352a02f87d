use cart_core::errors::CartError;
use cart_core::models::CartStatus;
use cart_core::reconciler::{CartItemKey, SetQuantityOutcome};
use cart_core::store::Store;

fn store_with_product(id: u128, qty: u32) -> Store {
    let mut s = Store::new();
    s.add_product(id, "Sample Widget".to_string(), 250, qty, 100)
        .expect("product");
    s
}

fn avail(s: &Store, pid: u128) -> u32 {
    s.products
        .iter()
        .find(|p| p.id == pid)
        .map(|p| p.quantity)
        .unwrap_or(0)
}

fn reserved(s: &Store, pid: u128) -> u64 {
    s.lines
        .iter()
        .filter(|l| l.product_id == pid)
        .map(|l| l.quantity as u64)
        .sum()
}

fn line_qty(s: &Store, c: u128, pid: u128) -> Option<u32> {
    s.lines
        .iter()
        .find(|l| l.cart_id == c && l.product_id == pid)
        .map(|l| l.quantity)
}

#[test]
fn scenario_partial_stock_add_then_oversized_add() {
    let mut s = store_with_product(1, 10);
    let line = s.add_item(7, 1, 7, 200, 101).expect("first add");
    assert_eq!(line.quantity, 7);
    assert_eq!(avail(&s, 1), 3);
    assert_eq!(line_qty(&s, 7, 1), Some(7));

    // Adding 5 more becomes a change to 12; only 3 are available.
    let r = s.add_item(7, 1, 5, 200, 102);
    assert_eq!(r, Err(CartError::InsufficientStock));
    assert_eq!(avail(&s, 1), 3);
    assert_eq!(line_qty(&s, 7, 1), Some(7));
}

#[test]
fn stock_conservation_over_a_mixed_sequence() {
    let mut s = store_with_product(1, 10);
    let total = |s: &Store| avail(s, 1) as u64 + reserved(s, 1);
    assert_eq!(total(&s), 10);

    s.add_item(7, 1, 7, 200, 101).expect("add to cart 7");
    assert_eq!(total(&s), 10);

    s.add_item(8, 1, 2, 200, 102).expect("add to cart 8");
    assert_eq!(total(&s), 10);

    s.set_quantity(7, 1, 4, 200, 103).expect("shrink cart 7");
    assert_eq!(total(&s), 10);

    s.get_or_create_open_cart_with(80, 8, 100).ok();
    s.bulk_remove(
        &vec![CartItemKey {
            cart_id: 8,
            product_id: 1,
        }],
        104,
    )
    .expect("remove cart 8");
    assert_eq!(total(&s), 10);
    assert_eq!(avail(&s, 1), 6);
}

#[test]
fn roundtrip_add_then_set_same_quantity() {
    let mut s = store_with_product(1, 10);
    s.add_item(7, 1, 5, 1000, 200).expect("add");
    let products_after_add = s.products.clone();
    let lines_after_add = s.lines.clone();

    let r = s.set_quantity(7, 1, 5, 1000, 200).expect("set same");
    match r {
        SetQuantityOutcome::Updated(l) => assert_eq!(l.quantity, 5),
        SetQuantityOutcome::Removed => panic!("line must stay"),
    }
    assert_eq!(s.products, products_after_add);
    assert_eq!(s.lines, lines_after_add);
}

#[test]
fn boundary_set_zero_deletes_line_and_restores_stock() {
    let mut s = store_with_product(1, 10);
    s.add_item(7, 1, 7, 200, 101).expect("add");
    assert_eq!(avail(&s, 1), 3);

    let r = s.set_quantity(7, 1, 0, 200, 102).expect("set zero");
    assert_eq!(r, SetQuantityOutcome::Removed);
    assert_eq!(line_qty(&s, 7, 1), None);
    assert_eq!(avail(&s, 1), 10);
}

#[test]
fn closed_cart_rejects_bulk_removal() {
    let mut s = store_with_product(1, 10);
    let cart = s.get_or_create_open_cart_with(42, 9, 100).expect("cart");
    s.add_item(cart.id, 1, 3, 200, 101).expect("add");
    let paid = s.pay_cart(cart.id, 102).expect("pay");
    assert_eq!(paid.status, CartStatus::Paid);

    let before_products = s.products.clone();
    let before_lines = s.lines.clone();
    let r = s.bulk_remove(
        &vec![CartItemKey {
            cart_id: cart.id,
            product_id: 1,
        }],
        103,
    );
    assert_eq!(r, Err(CartError::CartClosed));
    assert_eq!(s.products, before_products);
    assert_eq!(s.lines, before_lines);
}

#[test]
fn bulk_remove_is_idempotent() {
    let mut s = store_with_product(1, 10);
    s.add_product(2, "Other".to_string(), 100, 5, 100).expect("p2");
    s.get_or_create_open_cart_with(42, 9, 100).expect("cart");
    s.add_item(9, 1, 4, 200, 101).expect("add 1");
    s.add_item(9, 2, 2, 100, 102).expect("add 2");

    let req = vec![
        CartItemKey {
            cart_id: 9,
            product_id: 1,
        },
        CartItemKey {
            cart_id: 9,
            product_id: 2,
        },
    ];
    s.bulk_remove(&req, 103).expect("first removal");
    assert_eq!(avail(&s, 1), 10);
    assert_eq!(avail(&s, 2), 5);
    let products_after_first = s.products.clone();
    let lines_after_first = s.lines.clone();

    // Removing items that are already gone is a no-op, not an error.
    let r2 = s.bulk_remove(&req, 104);
    assert_eq!(r2, Ok(()));
    assert_eq!(s.products, products_after_first);
    assert_eq!(s.lines, lines_after_first);
}

#[test]
fn concurrent_adds_grant_only_what_fits() {
    let mut s = store_with_product(1, 10);
    let mut granted: u64 = 0;
    let mut failures = 0;
    for cart in [21u128, 22, 23] {
        match s.add_item(cart, 1, 4, 200, 101) {
            Ok(l) => granted += l.quantity as u64,
            Err(e) => {
                assert_eq!(e, CartError::InsufficientStock);
                failures += 1;
            }
        }
    }
    assert_eq!(granted, 8);
    assert_eq!(failures, 1);
    assert_eq!(avail(&s, 1), 2);
    assert_eq!(avail(&s, 1) as u64 + reserved(&s, 1), 10);
}

#[test]
fn add_item_error_cases() {
    let mut s = store_with_product(1, 10);
    assert_eq!(s.add_item(7, 1, 0, 200, 101), Err(CartError::InvalidQuantity));
    assert_eq!(s.add_item(7, 99, 1, 200, 101), Err(CartError::NotFound));
    assert_eq!(s.add_item(7, 1, 11, 200, 101), Err(CartError::InsufficientStock));
    assert_eq!(avail(&s, 1), 10);
    assert!(s.lines.is_empty());
}

#[test]
fn set_quantity_error_cases() {
    let mut s = store_with_product(1, 10);
    assert_eq!(
        s.set_quantity(7, 1, 3, 200, 101),
        Err(CartError::ItemNotFound)
    );
    s.add_item(7, 1, 2, 200, 101).expect("add");
    assert_eq!(
        s.set_quantity(7, 1, 11, 200, 102),
        Err(CartError::InsufficientStock)
    );
    assert_eq!(line_qty(&s, 7, 1), Some(2));
    assert_eq!(avail(&s, 1), 8);
}

#[test]
fn set_quantity_grows_and_shrinks() {
    let mut s = store_with_product(1, 10);
    s.add_item(7, 1, 2, 200, 101).expect("add");
    match s.set_quantity(7, 1, 9, 250, 102).expect("grow") {
        SetQuantityOutcome::Updated(l) => {
            assert_eq!(l.quantity, 9);
            assert_eq!(l.unit_amount, 250);
        }
        SetQuantityOutcome::Removed => panic!("line must stay"),
    }
    assert_eq!(avail(&s, 1), 1);
    match s.set_quantity(7, 1, 3, 250, 103).expect("shrink") {
        SetQuantityOutcome::Updated(l) => assert_eq!(l.quantity, 3),
        SetQuantityOutcome::Removed => panic!("line must stay"),
    }
    assert_eq!(avail(&s, 1), 7);
}

#[test]
fn bulk_remove_request_errors() {
    let mut s = store_with_product(1, 10);
    s.get_or_create_open_cart_with(42, 9, 100).expect("cart");
    assert_eq!(s.bulk_remove(&vec![], 101), Err(CartError::NoItems));
    let mixed = vec![
        CartItemKey {
            cart_id: 9,
            product_id: 1,
        },
        CartItemKey {
            cart_id: 10,
            product_id: 1,
        },
    ];
    assert_eq!(s.bulk_remove(&mixed, 101), Err(CartError::MixedCarts));
    let unknown = vec![CartItemKey {
        cart_id: 777,
        product_id: 1,
    }];
    assert_eq!(s.bulk_remove(&unknown, 101), Err(CartError::NotFound));
}

#[test]
fn get_or_create_returns_the_same_open_cart() {
    let mut s = Store::new();
    let c1 = s.get_or_create_open_cart(42, 100).expect("create");
    assert_eq!(c1.user_id, 42);
    assert_eq!(c1.status, CartStatus::Open);
    let c2 = s.get_or_create_open_cart(42, 200).expect("find");
    assert_eq!(c1, c2);
    assert_eq!(s.carts.len(), 1);

    // After checkout the user gets a fresh open cart.
    s.pay_cart(c1.id, 300).expect("pay");
    let c3 = s.get_or_create_open_cart(42, 400).expect("recreate");
    assert_ne!(c3.id, c1.id);
    assert_eq!(s.carts.len(), 2);
}

#[test]
fn pay_cart_errors() {
    let mut s = Store::new();
    assert_eq!(s.pay_cart(1, 100), Err(CartError::NotFound));
    let c = s.get_or_create_open_cart_with(42, 9, 100).expect("cart");
    s.pay_cart(c.id, 101).expect("pay");
    assert_eq!(s.pay_cart(c.id, 102), Err(CartError::CartClosed));
}

#[test]
fn add_product_rejects_duplicate_ids() {
    let mut s = store_with_product(1, 10);
    let r = s.add_product(1, "Again".to_string(), 100, 1, 200);
    assert_eq!(r, Err(CartError::DuplicateId));
    assert_eq!(s.products.len(), 1);
    assert_eq!(s.products[0].name, "Sample Widget");
}

#[test]
fn snapshot_joins_lines_and_recomputes_total() {
    let mut s = store_with_product(1, 10);
    s.add_product(2, "Other".to_string(), 100, 5, 100).expect("p2");
    let cart = s.get_or_create_open_cart_with(42, 9, 100).expect("cart");
    s.add_item(cart.id, 1, 2, 250, 101).expect("add 1");
    s.add_item(cart.id, 2, 3, 100, 102).expect("add 2");

    let view = s.get_open_cart(42).expect("snapshot");
    assert_eq!(view.id, cart.id);
    assert_eq!(view.user_id, 42);
    assert_eq!(view.status, CartStatus::Open);
    assert_eq!(view.items.len(), 2);
    assert_eq!(view.items[0].product.name, "Sample Widget");
    assert_eq!(view.items[0].quantity, 2);
    assert_eq!(view.items[1].product.name, "Other");
    // 2 * 250 + 3 * 100
    assert_eq!(view.total_amount, 800);

    assert!(s.get_open_cart(43).is_none());
}

#[test]
fn carts_by_user_lists_open_and_closed() {
    let mut s = store_with_product(1, 10);
    let first = s.get_or_create_open_cart_with(42, 9, 100).expect("first cart");
    s.add_item(first.id, 1, 2, 250, 101).expect("add");
    s.pay_cart(first.id, 102).expect("pay");
    let second = s.get_or_create_open_cart_with(42, 10, 103).expect("second cart");
    s.add_item(second.id, 1, 1, 300, 104).expect("add");

    let views = s.get_carts_by_user(42);
    assert_eq!(views.len(), 2);
    assert_eq!(views[0].id, first.id);
    assert_eq!(views[0].status, CartStatus::Paid);
    assert_eq!(views[0].total_amount, 500);
    assert_eq!(views[1].id, second.id);
    assert_eq!(views[1].status, CartStatus::Open);
    assert_eq!(views[1].total_amount, 300);

    assert!(s.get_carts_by_user(77).is_empty());
}
