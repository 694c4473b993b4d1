//! A verified registry of uniquely numbered tokens with a marketplace order
//! book for selling them.
//!
//! Every token belongs to exactly one account and sits in that account's
//! compact token array; every active sell order sits in one compact global
//! array, with a reverse index from token to order position. Removal from
//! either array is swap-with-last-then-truncate, so all operations are O(1).
pub mod types;
pub mod registry;
pub mod order_book;
pub mod currency;
pub mod pallet;
pub mod laws;

pub use types::{AccountId, Balance, Error, Event, Order, OrderId, TokenId};
pub use registry::TokenRegistry;
pub use order_book::OrderBook;
pub use currency::{Balances, Config};
pub use pallet::Pallet;
