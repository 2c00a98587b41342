//! A credential ledger for school grades.
//!
//! A small set of teachers may issue grades to students. Every grade is a
//! uniquely numbered record that belongs to one student and carries a fixed
//! set of text fields. Anyone may look a record up by its number, or walk the
//! records of one student in the order in which they were issued.
//!
//! The state is an ordinary value ([`NotenContract`]); every operation takes
//! the caller's identity as an argument and either completes or leaves the
//! state exactly as it was.

pub mod contract;
pub mod error;
pub mod identity;
pub mod interface;
pub mod ledger;
pub mod metadata;
pub mod registry;
pub mod text;

pub use contract::NotenContract;
pub use error::LedgerError;
pub use identity::{Identity, IdentityKind};
pub use ledger::{TokenId, TokenLedger};
pub use metadata::Metadata;
pub use registry::RoleRegistry;
