//! A deterministic ledger for uniquely identified generative assets
//! ("kitties"): minting, ownership transfer, breeding by mixing two parents'
//! generative data, and a fixed-price marketplace, all backed by a
//! currency-reservation scheme.
//!
//! The host that schedules calls (caller authentication, the per-block
//! randomness seed, the call index within a block) is outside this crate:
//! its values enter the public operations as plain arguments.

pub mod dna;
pub mod invariants;
pub mod laws;
pub mod model;
pub mod pallet;
pub mod types;

pub use pallet::Pallet;
pub use types::{
    AccountData, Config, Error, Event, GetKittyMarketResult, Kitty, KittyIndex, KittyInfo,
    KittyInfoById, MarketKittyqueryError,
};
