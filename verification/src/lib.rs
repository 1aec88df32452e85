//! A pie shop's inventory and recommendation engine.
//!
//! The shop sells slices of a fixed catalogue of pies.  Every customer may buy
//! at most [`purchase::ALLOWED_PIES`] slices of one pie, ever.  The engine
//! keeps the remaining stock, the purchase ledger, one blacklist per customer
//! and the shop-wide sold-out marks, and recommends a pie from label bitsets.
//!
//! - [`bitset`]: bit vectors over catalogue positions and their byte form;
//! - [`catalog`]: the indexes from identity to position and from label to
//!   positions;
//! - [`purchase`]: the guards of a purchase and the writes that it plans;
//! - [`recommend`]: the candidates of a request and the choice by budget;
//! - [`pie_state`]: the shop's state, and purchases and recommendations made
//!   against it;
//! - [`keys`]: the names under which a key-value store holds that state;
//! - [`pies`]: the catalogue's items.

pub mod bitset;
pub mod catalog;
pub mod keys;
pub mod pie_state;
pub mod pies;
pub mod purchase;
pub mod recommend;
