//! The stable, structured form of an error that JavaScript callers receive:
//! a code to branch on, the message, and the error's own values as optional
//! fields.

use vstd::prelude::*;
use crate::error::{error_message, Error};
use crate::invoice::models::InvoiceModelError;
use crate::text::string_from_chars;
use crate::text::chars_of;

verus! {

/// A structured error: a stable `code`, the `message`, and whichever of the
/// optional values the error carries.
#[derive(Clone, Debug, PartialEq, Eq)]
pub struct WasmError {
    pub code: &'static str,
    pub message: String,
    pub field: Option<String>,
    pub position: Option<usize>,
    pub actual: Option<u64>,
    pub maximum: Option<u64>,
    pub expected: Option<u64>,
    pub format: Option<String>,
    pub decoded: Option<usize>,
    pub count: Option<usize>,
}

/// The stable code of an error.
pub open spec fn error_code(e: Error) -> Seq<char> {
    match e {
        Error::InvalidInput { .. } => "INVALID_INPUT"@,
        Error::Unsupported(_) => "UNSUPPORTED"@,
        Error::SequenceTooLong { .. } => "SEQUENCE_TOO_LONG"@,
        Error::PayloadTooLong(_) => "PAYLOAD_TOO_LONG"@,
        Error::InvalidPayload(_) => "INVALID_PAYLOAD"@,
        Error::InvalidSequence { .. } => "INVALID_SEQUENCE"@,
        Error::Compression(_) => "COMPRESSION"@,
        Error::ChecksumMismatch { .. } => "CHECKSUM_MISMATCH"@,
        Error::Deserialize { .. } => "DESERIALIZE"@,
        Error::Utf8(_) => "UTF8"@,
        Error::ImageDecode(_) => "IMAGE_DECODE"@,
        Error::QrNotFound => "QR_NOT_FOUND"@,
        Error::QrDecode(_) => "QR_DECODE"@,
        Error::BySquareQrNotFound { .. } => "BY_SQUARE_QR_NOT_FOUND"@,
        Error::MultipleBySquareQrCodes(_) => "MULTIPLE_BY_SQUARE_QR_CODES"@,
        Error::PayQrNotFound { .. } => "PAY_QR_NOT_FOUND"@,
        Error::MultiplePayQrCodes(_) => "MULTIPLE_PAY_QR_CODES"@,
    }
}

/// The field an error names: that of invalid input or of a malformed
/// sequence field.
pub open spec fn error_field(e: Error) -> Option<Seq<char>> {
    match e {
        Error::InvalidInput { field, .. } => Some(field@),
        Error::InvalidSequence { field, .. } => Some(field@),
        _ => None,
    }
}

/// The position of a malformed sequence field.
pub open spec fn error_position(e: Error) -> Option<usize> {
    match e {
        Error::InvalidSequence { position, .. } => Some(position),
        _ => None,
    }
}

/// The actual length or checksum an error reports.
pub open spec fn error_actual(e: Error) -> Option<u64> {
    match e {
        Error::SequenceTooLong { actual, .. } => Some(actual as u64),
        Error::PayloadTooLong(actual) => Some(actual as u64),
        Error::ChecksumMismatch { actual, .. } => Some(actual as u64),
        _ => None,
    }
}

/// The limit an error reports: the sequence maximum, or the 16-bit payload
/// limit.
pub open spec fn error_maximum(e: Error) -> Option<u64> {
    match e {
        Error::SequenceTooLong { maximum, .. } => Some(maximum as u64),
        Error::PayloadTooLong(_) => Some(65535),
        _ => None,
    }
}

/// The checksum a payload carries, for a mismatch.
pub open spec fn error_expected(e: Error) -> Option<u64> {
    match e {
        Error::ChecksumMismatch { expected, .. } => Some(expected as u64),
        _ => None,
    }
}

/// The source format that could not be read.
pub open spec fn error_format(e: Error) -> Option<Seq<char>> {
    match e {
        Error::Deserialize { format, .. } => Some(format@),
        _ => None,
    }
}

/// The number of QR texts read when none was a wanted document.
pub open spec fn error_decoded(e: Error) -> Option<usize> {
    match e {
        Error::BySquareQrNotFound { decoded } => Some(decoded),
        Error::PayQrNotFound { decoded } => Some(decoded),
        _ => None,
    }
}

/// The number of wanted documents when there were several.
pub open spec fn error_count(e: Error) -> Option<usize> {
    match e {
        Error::MultipleBySquareQrCodes(count) => Some(count),
        Error::MultiplePayQrCodes(count) => Some(count),
        _ => None,
    }
}

/// Optional text as a sequence of characters.
pub open spec fn optional_view(o: Option<String>) -> Option<Seq<char>> {
    match o {
        Some(s) => Some(s@),
        None => None,
    }
}

fn owned(s: &str) -> (r: Option<String>)
    ensures
        r matches Some(t) && t@ == s@,
{
    Some(string_from_chars(chars_of(s).as_slice()))
}

fn structured(code: &'static str, error: &Error) -> (r: WasmError)
    ensures
        r.code == code,
        r.message@ == error_message(*error),
        r.field is None && r.position is None && r.actual is None && r.maximum is None,
        r.expected is None && r.format is None && r.decoded is None && r.count is None,
{
    WasmError {
        code,
        message: error.message(),
        field: None,
        position: None,
        actual: None,
        maximum: None,
        expected: None,
        format: None,
        decoded: None,
        count: None,
    }
}

/// The structured form of an error: its stable code, its message, and the
/// values it carries, each in its own field.
pub fn wasm_error(error: &Error) -> (r: WasmError)
    ensures
        r.code@ == error_code(*error),
        r.message@ == error_message(*error),
        optional_view(r.field) == error_field(*error),
        r.position == error_position(*error),
        r.actual == error_actual(*error),
        r.maximum == error_maximum(*error),
        r.expected == error_expected(*error),
        optional_view(r.format) == error_format(*error),
        r.decoded == error_decoded(*error),
        r.count == error_count(*error),
{
    match error {
        Error::InvalidInput { field, .. } => {
            let mut r = structured("INVALID_INPUT", error);
            r.field = owned(field);
            r
        },
        Error::Unsupported(_) => structured("UNSUPPORTED", error),
        Error::SequenceTooLong { actual, maximum } => {
            let mut r = structured("SEQUENCE_TOO_LONG", error);
            r.actual = Some(*actual as u64);
            r.maximum = Some(*maximum as u64);
            r
        },
        Error::PayloadTooLong(actual) => {
            let mut r = structured("PAYLOAD_TOO_LONG", error);
            r.actual = Some(*actual as u64);
            r.maximum = Some(65535);
            r
        },
        Error::InvalidPayload(_) => structured("INVALID_PAYLOAD", error),
        Error::InvalidSequence { position, field, .. } => {
            let mut r = structured("INVALID_SEQUENCE", error);
            r.position = Some(*position);
            r.field = owned(field);
            r
        },
        Error::Compression(_) => structured("COMPRESSION", error),
        Error::ChecksumMismatch { expected, actual } => {
            let mut r = structured("CHECKSUM_MISMATCH", error);
            r.expected = Some(*expected as u64);
            r.actual = Some(*actual as u64);
            r
        },
        Error::Deserialize { format, .. } => {
            let mut r = structured("DESERIALIZE", error);
            r.format = owned(format);
            r
        },
        Error::Utf8(_) => structured("UTF8", error),
        Error::ImageDecode(_) => structured("IMAGE_DECODE", error),
        Error::QrNotFound => structured("QR_NOT_FOUND", error),
        Error::QrDecode(_) => structured("QR_DECODE", error),
        Error::BySquareQrNotFound { decoded } => {
            let mut r = structured("BY_SQUARE_QR_NOT_FOUND", error);
            r.decoded = Some(*decoded);
            r
        },
        Error::MultipleBySquareQrCodes(count) => {
            let mut r = structured("MULTIPLE_BY_SQUARE_QR_CODES", error);
            r.count = Some(*count);
            r
        },
        Error::PayQrNotFound { decoded } => {
            let mut r = structured("PAY_QR_NOT_FOUND", error);
            r.decoded = Some(*decoded);
            r
        },
        Error::MultiplePayQrCodes(count) => {
            let mut r = structured("MULTIPLE_PAY_QR_CODES", error);
            r.count = Some(*count);
            r
        },
    }
}

/// The structured form of a rule of the data model that a value breaks:
/// invalid input in the rule's field, with the message `invalid {field}:
/// {detail}`.
pub fn model_wasm_error(error: &InvoiceModelError) -> (r: WasmError)
    ensures
        r.code@ == "INVALID_INPUT"@,
        r.message@ == "invalid "@ + error.field_spec()@ + ": "@ + error.message_spec(),
        optional_view(r.field) == Some(error.field_spec()@),
        r.position is None && r.actual is None && r.maximum is None && r.expected is None,
        r.format is None && r.decoded is None && r.count is None,
{
    let field = error.field();
    let opened = crate::text::concat("invalid ", field);
    let head = crate::text::concat(opened.as_str(), ": ");
    WasmError {
        code: "INVALID_INPUT",
        message: crate::text::concat(head.as_str(), error.message()),
        field: owned(field),
        position: None,
        actual: None,
        maximum: None,
        expected: None,
        format: None,
        decoded: None,
        count: None,
    }
}

} // verus!
