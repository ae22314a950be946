//! Settlement core of a constant-product exchange: pair registry and lifecycle,
//! pricing, fee accounting and the two-phase issuance of pool receipt tokens.
use vstd::prelude::*;

pub mod config;
pub mod contract;
pub mod helpers;
pub mod swap;
pub mod token;

pub use config::{ConfigModule, DexError, Pair, PairState, State};
pub use contract::{IssueCallbackEffect, IssueRequest, PendingIssuance, TFNDEXContract};

verus! {

} // verus!
