//! A simulated acquiring bank: a transaction ledger, a registry of hosted
//! interaction sessions, and the integrity tokens that authenticate merchant
//! requests.

pub mod bank;
pub mod card_number;
mod clock;
mod entropy;
pub mod errors;
pub mod hosted;
pub mod init_payment;
pub mod sessions;
pub mod text;
pub mod token;
