//! INVOICE by square documents.

pub mod decode;
pub mod encode;
pub mod models;
