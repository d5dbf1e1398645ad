//! A non-fungible-token registry: an authoritative ledger from token ids to
//! owners with minting, burning, approval-based delegated transfer and a
//! two-phase transfer that notifies the receiver and can be rolled back.
//!
//! [`contract::Contract`] is the registry. It performs no input or output:
//! who calls, what payment is attached and what time it is are arguments of
//! its calls, and the events to publish are their results.
//!
//! [`model`] says what the registry is and does as mathematics, and
//! [`theorems`] proves what follows from that for every state and every
//! sequence of calls: that the index of tokens by owner always agrees with
//! the ledger, that approval ids are never reused, that a refused transfer
//! is undone exactly, and more. Every call of the registry is proved to act
//! on its view as the model says.

pub mod approvals;
pub mod authorizer;
pub mod contract;
pub mod error;
pub mod events;
pub mod metadata;
pub mod model;
pub mod params;
pub mod string_map;
pub mod string_set;
pub mod theorems;
pub mod token;
pub mod transfer_call;

pub use contract::Contract;
pub use error::NftError;
pub use params::TokenCreateMetadata;
