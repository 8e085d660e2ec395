//! The accounting core of a single fungible-token ledger: total supply,
//! per-holder balances, an owner with administrative rights, and a time
//! lock on minting.
pub mod clock;
pub mod error;
pub mod laws;
pub mod model;
pub mod token;

pub use error::TokenError;
pub use model::{TokenModel, TransferCall};
pub use token::Token;
pub use clock::get_current_timestamp;
