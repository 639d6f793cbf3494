//! PAY by square documents.

pub mod decoder;
pub mod advisory;
pub mod encoder;
pub mod models;
pub mod transport;
