//! A price prediction market on a virtual token.
//!
//! Users stake tokens on the price of an asset, in rounds of two kinds: in an Up/Down round they
//! bet on the direction in which the price moves, in a Precision round they predict the price.
//! An administrator opens the rounds, and an oracle ends them with the price that was reached.
//!
//! [`VirtualTokenContract`] holds the operations. They work on a [`Ledger`], and their contracts
//! are stated over its view, [`state::State`], which says for each request what it makes of the
//! state or why it is refused. What a resolved round pays is in [`settlement`].
//!
//! What single requests do is proved in [`requests`], and what the resolution of a round does in
//! [`outcomes`], both in terms of what is stored. What holds of all requests is proved in
//! [`laws`], and what holds of all payouts in [`payouts`].

pub mod address;
pub mod contract;
pub mod errors;
pub mod host_map;
pub mod host_vec;
pub mod laws;
pub mod ledger;
pub mod outcomes;
pub mod payouts;
pub mod requests;
pub mod resolution;
pub mod settlement;
pub mod shortlist;
pub mod stakes;
pub mod state;
pub mod sums;
pub mod table;
pub mod types;
pub mod worth;

pub use address::Address;
pub use contract::VirtualTokenContract;
pub use errors::ContractError;
pub use ledger::{Ledger, Storage};
pub use stakes::{Positions, Predictions};
pub use table::Table;
pub use types::{
    BetSide, Event, OraclePayload, PrecisionPrediction, Round, RoundMode, UserPosition, UserStats,
};
