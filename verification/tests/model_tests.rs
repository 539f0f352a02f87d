use cart_core::errors::CartError;
use cart_core::models::{
    CartItemModel, CartItemWithProductModel, CartModel, CartStatus, CartWithItemsModel,
    ProductModel,
};

#[test]
fn cart_status_labels() {
    assert_eq!(CartStatus::Open.label(), "Open");
    assert_eq!(CartStatus::Refund.label(), "Refund");
    assert_eq!(CartStatus::Paid.label(), "Paid");
    assert_eq!(CartStatus::FOC.label(), "FOC");
}

#[test]
fn cart_status_parses_both_spellings() {
    assert_eq!(CartStatus::from_str("Open"), Ok(CartStatus::Open));
    assert_eq!(CartStatus::from_str("open"), Ok(CartStatus::Open));
    assert_eq!(CartStatus::from_str("Refund"), Ok(CartStatus::Refund));
    assert_eq!(CartStatus::from_str("refund"), Ok(CartStatus::Refund));
    assert_eq!(CartStatus::from_str("Paid"), Ok(CartStatus::Paid));
    assert_eq!(CartStatus::from_str("paid"), Ok(CartStatus::Paid));
    assert_eq!(CartStatus::from_str("FOC"), Ok(CartStatus::FOC));
    assert_eq!(CartStatus::from_str("foc"), Ok(CartStatus::FOC));
    assert_eq!(CartStatus::from_str("PAID"), Err(()));
    assert_eq!(CartStatus::from_str(""), Err(()));
}

#[test]
fn line_total_is_quantity_times_unit_amount() {
    let l = CartItemModel {
        cart_id: 1,
        product_id: 2,
        quantity: 7,
        unit_amount: 250,
        created_at: 0,
        updated_at: 0,
    };
    assert_eq!(l.line_total(), 1750);

    let big = CartItemModel {
        quantity: u32::MAX,
        unit_amount: u64::MAX,
        ..l
    };
    assert_eq!(big.line_total(), (u32::MAX as u128) * (u64::MAX as u128));
}

fn joined(q: u32, unit: u64) -> CartItemWithProductModel {
    CartItemWithProductModel {
        cart_id: 1,
        product_id: 2,
        quantity: q,
        unit_amount: unit,
        product: ProductModel {
            id: 2,
            name: "Widget".to_string(),
            price: unit,
            quantity: 0,
            updated_at: 0,
        },
        created_at: 0,
        updated_at: 0,
    }
}

#[test]
fn cart_view_recomputes_total_from_lines() {
    let cart = CartModel {
        id: 9,
        user_id: 42,
        status: CartStatus::Open,
        created_at: 5,
        updated_at: 6,
    };
    let view = CartWithItemsModel::new(cart, vec![joined(2, 250), joined(3, 100)]);
    assert_eq!(view.id, 9);
    assert_eq!(view.user_id, 42);
    assert_eq!(view.status, CartStatus::Open);
    assert_eq!(view.created_at, 5);
    assert_eq!(view.updated_at, 6);
    assert_eq!(view.items.len(), 2);
    assert_eq!(view.total_amount, 800);
}

#[test]
fn cart_view_total_handles_large_lines() {
    let cart = CartModel {
        id: 9,
        user_id: 42,
        status: CartStatus::Open,
        created_at: 0,
        updated_at: 0,
    };
    let huge = joined(u32::MAX, u64::MAX);
    let expected = 2 * (u32::MAX as u128) * (u64::MAX as u128);
    let view = CartWithItemsModel::new(cart, vec![huge.clone(), huge]);
    assert_eq!(view.total_amount, expected);
}

#[test]
fn cart_error_codes_and_messages() {
    assert_eq!(CartError::InvalidQuantity.code(), 400);
    assert_eq!(CartError::InvalidQuantity.message(), "Quantity must be > 0");
    assert_eq!(CartError::InsufficientStock.code(), 400);
    assert_eq!(CartError::InsufficientStock.message(), "Insufficient stock");
    assert_eq!(CartError::ItemNotFound.code(), 404);
    assert_eq!(CartError::ItemNotFound.message(), "Item not found");
    assert_eq!(CartError::CartClosed.code(), 400);
    assert_eq!(CartError::CartClosed.message(), "Cannot modify a closed cart!");
    assert_eq!(CartError::NoItems.code(), 400);
    assert_eq!(CartError::NoItems.message(), "No items to remove!");
    assert_eq!(CartError::MixedCarts.code(), 400);
    assert_eq!(
        CartError::MixedCarts.message(),
        "All items must belong to the same cart!"
    );
    assert_eq!(CartError::NotFound.code(), 404);
    assert_eq!(CartError::NotFound.message(), "Record not found");
    assert_eq!(CartError::DuplicateId.code(), 409);
    assert_eq!(CartError::DuplicateId.message(), "Already exists");
}
