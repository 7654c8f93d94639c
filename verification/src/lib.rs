//! A time-windowed log of oracle data and the rules of the module that keeps it.
//!
//! [`model`] describes the log as a sequence of entries, [`oracle_data`] holds
//! the executable log, [`pallet`] holds the rules of the module that stores
//! it, and [`theorems`] states what holds of every log.

pub mod model;
pub mod oracle_data;
pub mod pallet;
pub mod theorems;
