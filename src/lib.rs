//! A registry of collectible creatures ("kitties"): minting, pricing, transfer,
//! trading and breeding, with a refundable stake held on a balance ledger for
//! every creature an account owns; and a registry of proof-of-existence claims.
pub mod balances;
pub mod dna;
pub mod pallet;
pub mod poe;
pub mod types;

pub use balances::{AccountData, Balances};
pub use dna::{breed_bits, crossover, dna_payload, gen_dna, gen_gender};
pub use pallet::Pallet;
pub use types::{AccountId, Balance, Entropy, Error, Event, Gender, Kitty, KittyIndex};
