//! The registry of the transactions in flight.

pub mod table;
