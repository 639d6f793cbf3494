//! The error type shared by every encoder and decoder.

use vstd::prelude::*;
use crate::numeral::{hex32_string, hex32_text, nat_text, u64_string};
use crate::text::concat;

verus! {

/// Why encoding, decoding or validating a by-square document failed.
#[derive(Debug)]
pub enum Error {
    /// A document field violates the by-square data model.
    InvalidInput { field: &'static str, message: String },
    /// The document or header is valid but not supported.
    Unsupported(String),
    /// The uncompressed sequence exceeds the QR character limit.
    SequenceTooLong { actual: usize, maximum: usize },
    /// The uncompressed payload exceeds the 16-bit length field.
    PayloadTooLong(usize),
    /// The binary envelope is malformed.
    InvalidPayload(String),
    /// A field of the tab-delimited sequence is missing or malformed.
    InvalidSequence { position: usize, field: &'static str, message: String },
    /// The LZMA codec reported an error.
    Compression(String),
    /// The CRC32 stored in the payload differs from the computed one.
    ChecksumMismatch { expected: u32, actual: u32 },
    /// JSON or XML source data could not be read.
    Deserialize { format: &'static str, message: String },
    /// The decoded sequence is not valid UTF-8.
    Utf8(String),
    /// Raster image bytes could not be decoded.
    ImageDecode(String),
    /// No QR code was found in an image.
    QrNotFound,
    /// QR codes were found but none could be read.
    QrDecode(String),
    /// None of the QR texts read from an image is a by square document.
    BySquareQrNotFound { decoded: usize },
    /// More than one QR text of an image is a by square document.
    MultipleBySquareQrCodes(usize),
    /// None of the QR texts read from an image is a PAY document.
    PayQrNotFound { decoded: usize },
    /// More than one QR text of an image is a PAY document.
    MultiplePayQrCodes(usize),
}

pub type Result<T> = core::result::Result<T, Error>;

/// An owned copy of a message literal.
pub fn text(message: &str) -> (res: String)
    ensures
        res@ == message@,
{
    message.to_owned()
}

impl Error {
    /// An `InvalidInput` error for `field`.
    pub fn invalid(field: &'static str, message: &str) -> (res: Self)
        ensures
            res matches Error::InvalidInput { field: f, .. } && f == field,
    {
        Error::InvalidInput { field, message: text(message) }
    }
}

/// The message that describes an error to a person.
pub open spec fn error_message(e: Error) -> Seq<char> {
    match e {
        Error::InvalidInput { field, message } => "invalid "@ + field@ + ": "@ + message@,
        Error::Unsupported(message) => message@,
        Error::SequenceTooLong { actual, maximum } => "PAY by square sequence has "@ + nat_text(
            actual as nat,
        ) + " characters; the maximum is "@ + nat_text(maximum as nat),
        Error::PayloadTooLong(actual) => "uncompressed payload has "@ + nat_text(actual as nat)
            + " bytes; the 16-bit limit is 65535"@,
        Error::InvalidPayload(message) => "invalid by square payload: "@ + message@,
        Error::InvalidSequence { position, field, message } => "invalid sequence field "@ + field@
            + " at position "@ + nat_text(position as nat) + ": "@ + message@,
        Error::Compression(message) => "LZMA error: "@ + message@,
        Error::ChecksumMismatch { expected, actual } => "CRC32 mismatch: payload contains "@
            + hex32_text(expected) + ", calculated "@ + hex32_text(actual),
        Error::Deserialize { format, message } => "unable to deserialize "@ + format@ + ": "@
            + message@,
        Error::Utf8(message) => "payload sequence is not valid UTF-8: "@ + message@,
        Error::ImageDecode(message) => "unable to decode image: "@ + message@,
        Error::QrNotFound => "no QR code was found in the image"@,
        Error::QrDecode(message) => "unable to decode QR code: "@ + message@,
        Error::BySquareQrNotFound { decoded } => "none of the "@ + nat_text(decoded as nat)
            + " decoded QR codes is a by square document"@,
        Error::MultipleBySquareQrCodes(count) => "found "@ + nat_text(count as nat)
            + " by square QR codes; expected exactly one"@,
        Error::PayQrNotFound { decoded } => "none of the "@ + nat_text(decoded as nat)
            + " decoded QR codes is a PAY by square document"@,
        Error::MultiplePayQrCodes(count) => "found "@ + nat_text(count as nat)
            + " PAY by square QR codes; expected exactly one"@,
    }
}

fn text3(a: &str, b: &str, c: &str) -> (r: String)
    ensures
        r@ == a@ + b@ + c@,
{
    let ab = concat(a, b);
    concat(ab.as_str(), c)
}

fn text4(a: &str, b: &str, c: &str, d: &str) -> (r: String)
    ensures
        r@ == a@ + b@ + c@ + d@,
{
    let abc = text3(a, b, c);
    concat(abc.as_str(), d)
}

impl Error {
    /// The message that describes the error to a person.
    pub fn message(&self) -> (r: String)
        ensures
            r@ == error_message(*self),
    {
        match self {
            Error::InvalidInput { field, message } => text4("invalid ", field, ": ", message.as_str()),
            Error::Unsupported(message) => message.clone(),
            Error::SequenceTooLong { actual, maximum } => {
                let a = u64_string(*actual as u64);
                let m = u64_string(*maximum as u64);
                text4("PAY by square sequence has ", a.as_str(), " characters; the maximum is ", m.as_str())
            },
            Error::PayloadTooLong(actual) => {
                let a = u64_string(*actual as u64);
                text3("uncompressed payload has ", a.as_str(), " bytes; the 16-bit limit is 65535")
            },
            Error::InvalidPayload(message) => concat("invalid by square payload: ", message.as_str()),
            Error::InvalidSequence { position, field, message } => {
                let p = u64_string(*position as u64);
                let head = text4("invalid sequence field ", field, " at position ", p.as_str());
                text3(head.as_str(), ": ", message.as_str())
            },
            Error::Compression(message) => concat("LZMA error: ", message.as_str()),
            Error::ChecksumMismatch { expected, actual } => {
                let e = hex32_string(*expected);
                let a = hex32_string(*actual);
                text4("CRC32 mismatch: payload contains ", e.as_str(), ", calculated ", a.as_str())
            },
            Error::Deserialize { format, message } => text4(
                "unable to deserialize ",
                format,
                ": ",
                message.as_str(),
            ),
            Error::Utf8(message) => concat("payload sequence is not valid UTF-8: ", message.as_str()),
            Error::ImageDecode(message) => concat("unable to decode image: ", message.as_str()),
            Error::QrNotFound => text("no QR code was found in the image"),
            Error::QrDecode(message) => concat("unable to decode QR code: ", message.as_str()),
            Error::BySquareQrNotFound { decoded } => {
                let d = u64_string(*decoded as u64);
                text3("none of the ", d.as_str(), " decoded QR codes is a by square document")
            },
            Error::MultipleBySquareQrCodes(count) => {
                let c = u64_string(*count as u64);
                text3("found ", c.as_str(), " by square QR codes; expected exactly one")
            },
            Error::PayQrNotFound { decoded } => {
                let d = u64_string(*decoded as u64);
                text3("none of the ", d.as_str(), " decoded QR codes is a PAY by square document")
            },
            Error::MultiplePayQrCodes(count) => {
                let c = u64_string(*count as u64);
                text3("found ", c.as_str(), " PAY by square QR codes; expected exactly one")
            },
        }
    }
}

} // verus!
