//! Verified core of a personal wishlist and purchase tracker.
//!
//! Items are gathered in named lists, scored by how much they are wanted and
//! needed, and moved to a purchase history once bought. The store keeps the
//! three tables of the application (lists, wish items, purchase records) and
//! every query and update of the application is a verified method on it.

pub mod model;
pub mod text;
pub mod sort;
pub mod tables;
pub mod order;
pub mod store;
pub mod laws;
pub mod ui;
