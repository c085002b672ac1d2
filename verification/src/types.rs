//! The data types of the ledger: assets, events, errors, configuration,
//! and the record shape returned by the market query.

use vstd::prelude::*;

verus! {

/// Identifier of an asset. Ids are allocated from 0 upward and never reused.
pub type KittyIndex = u64;

/// An asset: 16 bytes of generative data, fixed at mint or breed time.
#[derive(Clone, Copy, PartialEq, Eq, Debug)]
pub struct Kitty(pub [u8; 16]);

impl View for Kitty {
    type V = Seq<u8>;

    open spec fn view(&self) -> Seq<u8> {
        self.0@
    }
}

/// The error kinds that the five mutating operations can surface.
#[derive(Clone, Copy, PartialEq, Eq, Debug)]
pub enum Error {
    /// The id counter is at the representable maximum; nothing more can be minted.
    KittiesCountOverflow,
    /// The caller does not own the asset it tried to act on.
    NotOwner,
    /// Breeding was asked to combine an asset with itself.
    SameParentIndex,
    /// The referenced asset or listing does not exist or is not active.
    InvalidKittyIndex,
    /// A reservation or a purchase could not be funded.
    NoSufficientBalance,
}

/// The domain event that each successful operation emits, exactly one per call.
#[derive(Clone, Copy, PartialEq, Eq, Debug)]
pub enum Event {
    /// Creator and id of a newly minted or bred asset.
    KittyCreate(u64, KittyIndex),
    /// Old owner, new owner, id.
    KittyTransfer(u64, u64, KittyIndex),
    /// Id put up for sale, and its asking price.
    SellingKitty(KittyIndex, u128),
    /// Id sold, old owner, new owner.
    SeltKitty(KittyIndex, u64, u64),
}

/// Fixed configuration of a ledger instance.
#[derive(Clone, Copy, PartialEq, Eq, Debug)]
pub struct Config {
    /// Amount held against an owner's balance for each asset it mints or receives.
    pub reservation_fee: u128,
    /// The liveness floor a paying account must keep after a purchase.
    pub existential_deposit: u128,
}

/// Free and reserved balance of one account in the currency model.
#[derive(Clone, Copy, PartialEq, Eq, Debug)]
pub struct AccountData {
    pub free: u128,
    pub reserved: u128,
}

/// Error kind reserved for market queries.
#[derive(Clone, Copy, PartialEq, Eq, Debug)]
pub enum MarketKittyqueryError {
    DoNotExistKitty,
}

/// One active listing as the market query reports it.
#[derive(Clone, PartialEq, Eq, Debug)]
pub struct KittyInfo<AccountId, Balance> {
    pub owner: AccountId,
    pub price: Balance,
    pub kitty_dna: Kitty,
}

/// A listed asset's id together with its listing record.
#[derive(Clone, PartialEq, Eq, Debug)]
pub struct KittyInfoById<AccountId, Balance> {
    pub kitty_index: KittyIndex,
    pub info: KittyInfo<AccountId, Balance>,
}

/// What the market query returns: most recently minted listings first.
pub type GetKittyMarketResult<AccountId, Balance> = Vec<KittyInfoById<AccountId, Balance>>;

} // verus!
