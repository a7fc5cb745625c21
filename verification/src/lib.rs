//! Verified core of a crowdfunding platform: access control, review workflow,
//! campaign ledger, document uploads, payment registry and investment records.
//!
//! Every service is a value with a view as sets, sequences and maps; the
//! caller and the time are arguments of its operations.

pub mod access;
pub mod account;
pub mod backend;
pub mod campaign;
pub mod controller;
pub mod identity;
pub mod index;
pub mod payment;
pub mod review;
pub mod spv;
pub mod table;
pub mod text;
pub mod token;
pub mod upload;
