use vstd::prelude::*;

verus! {

/// Identifies an account on the ledger and in the ownership index.
pub type AccountId = u64;

/// Identifies a kitty; handed out in increasing order from zero.
pub type KittyIndex = u32;

/// An amount on the balance ledger.
pub type Balance = u128;

#[derive(Clone, Copy, Debug, PartialEq, Eq, Structural)]
pub enum Gender {
    Male,
    Female,
}

/// A minted creature. `dna` and `gender` never change after minting; `price`
/// is the ask price (`None`: not for sale).
#[derive(Clone, Copy, Debug, PartialEq, Eq)]
pub struct Kitty {
    pub dna: [u8; 16],
    pub price: Option<Balance>,
    pub gender: Gender,
    pub owner: AccountId,
}

/// What the host supplies for one call: the random outputs for the subjects
/// `"dna"` and `"gender"`, the index of the current operation in its block
/// (if known) and the block number.
#[derive(Clone, Copy, Debug)]
pub struct Entropy {
    pub dna_seed: [u8; 32],
    pub gender_seed: [u8; 32],
    pub extrinsic_index: Option<u32>,
    pub block_number: u32,
}

/// The event a successful call emits.
#[derive(Clone, Copy, Debug, PartialEq, Eq)]
pub enum Event {
    /// A new kitty was created. \[sender, kitty_id\]
    Created(AccountId, KittyIndex),
    /// A kitty's price was set. \[sender, kitty_id, new_price\]
    PriceSet(AccountId, KittyIndex, Option<Balance>),
    /// A kitty was transferred. \[from, to, kitty_id\]
    Transferred(AccountId, AccountId, KittyIndex),
    /// A kitty was bought. \[buyer, seller, kitty_id, bid_price\]
    Bought(AccountId, AccountId, KittyIndex, Balance),
    /// A kitty was bred. \[sender, new_kitty_id, parent1, parent2\]
    BredSuccess(AccountId, KittyIndex, KittyIndex, KittyIndex),
}

#[derive(Clone, Copy, Debug, PartialEq, Eq, Structural)]
pub enum Error {
    /// The identifier counter would reach the largest `KittyIndex`.
    KittyIndexOverflow,
    /// An account cannot own more kitties than the configured maximum.
    ExceedMaxKittyOwned,
    /// The buyer already owns the kitty.
    BuyerIsKittyOwner,
    /// A kitty cannot be transferred to its owner.
    TransferToSelf,
    /// No kitty has this identifier.
    KittyNotExist,
    /// The caller does not own the kitty.
    NotKittyOwner,
    /// The kitty has no ask price.
    KittyNotForSale,
    /// The bid is below the ask price.
    KittyBidPriceTooLow,
    /// The account's free balance does not cover the amount.
    NotEnoughBalance,
    /// The recipient's total balance would exceed the largest `Balance`.
    BalanceOverflow,
}

} // verus!
