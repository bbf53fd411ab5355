//! Formation of fixed-membership threshold societies: members are invited,
//! commit share material, publish public keys, and a deadline-driven
//! scheduler promotes each society to `Active` or marks it `Failed`.
pub mod types;
pub mod table;
pub mod membership;
pub mod crypto;
pub mod model;
pub mod pallet;

pub use pallet::Pallet;
pub use types::{
    AccountId, BlockNumber, Capsule, Error, Event, MemberStatus, Phase, Share, Society,
    SocietyId, SocietyView, TransactionRequest,
};
