//! A verified core for a shopping-cart service: products with an
//! available-stock ledger, carts with line items, and a reconciler that
//! keeps reservations and stock consistent under every operation.

pub mod auth;
pub mod errors;
pub mod laws;
pub mod models;
pub mod reconciler;
pub mod response;
pub mod runtime;
pub mod snapshot;
pub mod store;
pub mod strutil;
