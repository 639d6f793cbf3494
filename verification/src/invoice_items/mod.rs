//! INVOICE ITEMS by square documents for multi-line invoices.

pub mod decode;
pub mod encode;
pub mod models;
