//! Session, authentication and world-tick engine of a game backend.
//!
//! Every executable function here is verified. Calls into outside crates and into
//! parts of std without a specification stand behind small trusted wrappers, each of
//! which names the function it relies on: SRP6 in `srp`, hex text in `hexcode`, the
//! R-tree in `spatial`, case folding and trimming in `realm`, UTF-8 checks in `addons`.

pub mod store;
pub mod spatial;
pub mod updates;
pub mod character;
pub mod teleport;
pub mod inventory;
pub mod map;
pub mod hexcode;
pub mod srp;
pub mod auth;
pub mod instances;
pub mod realm;
pub mod records;
pub mod addons;
pub mod login;
pub mod chat;
