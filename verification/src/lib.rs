//! PAY by square, INVOICE by square and INVOICE ITEMS by square encoder and
//! decoder with machine-checked contracts.

pub mod calendar;
pub mod canonical;
pub mod checksum;
pub mod codec;
pub mod decimal;
pub mod diagnostic;
pub mod document;
pub mod error;
pub mod fields;
pub mod invoice;
pub mod invoice_items;
pub mod lzma;
pub mod magnitude;
pub mod numeral;
pub mod output;
pub mod pay;
pub mod qr;
pub mod qr_reader;
pub mod reader;
pub mod text;
pub mod wasm;
pub mod xml;
