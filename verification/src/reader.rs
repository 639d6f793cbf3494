//! Reading a tab-delimited sequence field by field, with the position of the
//! field in every error.

use vstd::prelude::*;
use crate::error::{text, Error, Result};
use crate::fields::{split_fields, split_tabs, texts};
use crate::numeral::{is_numeral, parse_numeral};
use crate::decimal::digits_value;
use crate::text::chars_of;

verus! {

/// The fields of a sequence and how many of them have been read.
pub struct SequenceReader {
    pub fields: Vec<String>,
    pub position: usize,
}

/// The `k`-th field of a reader, as text.
pub open spec fn field_at(r: SequenceReader, k: int) -> Seq<char> {
    r.fields@[k]@
}

impl SequenceReader {
    /// A reader at the first field of `sequence`.
    pub fn new(sequence: &str) -> (r: Self)
        ensures
            texts(r.fields@) == split_tabs(sequence@),
            r.position == 0,
    {
        SequenceReader { fields: split_fields(sequence), position: 0 }
    }

    /// The next field; a missing field is an error at its position.
    pub fn next(&mut self, field: &'static str) -> (r: Result<String>)
        requires
            old(self).position <= old(self).fields@.len(),
        ensures
            final(self).fields@ == old(self).fields@,
            final(self).position <= final(self).fields@.len(),
            old(self).position < old(self).fields@.len() ==> (r matches Ok(s) && s@ == field_at(
                *old(self),
                old(self).position as int,
            ) && final(self).position == old(self).position + 1),
            old(self).position == old(self).fields@.len() ==> (r matches Err(
                Error::InvalidSequence { field: f, .. },
            ) && f == field),
    {
        if self.position < self.fields.len() {
            let value = self.fields[self.position].clone();
            self.position = self.position + 1;
            Ok(value)
        } else {
            Err(
                Error::InvalidSequence {
                    position: self.position.saturating_add(1),
                    field,
                    message: text("field is missing"),
                },
            )
        }
    }

    /// An error about the field last read.
    pub fn invalid(&self, field: &'static str, message: &str) -> (r: Error)
        ensures
            r matches Error::InvalidSequence { position, field: f, .. } && position
                == self.position && f == field,
    {
        Error::InvalidSequence { position: self.position, field, message: text(message) }
    }

    /// Succeeds when every field has been read; a trailing field is an error.
    pub fn finish(&self) -> (r: Result<()>)
        requires
            self.position <= self.fields@.len(),
        ensures
            r is Ok <==> self.position == self.fields@.len(),
            r matches Err(e) ==> e is InvalidSequence,
    {
        if self.position < self.fields.len() {
            Err(
                Error::InvalidSequence {
                    position: self.position.saturating_add(1),
                    field: "document",
                    message: text("contains unexpected trailing fields"),
                },
            )
        } else {
            Ok(())
        }
    }
}

/// The unsigned integer a field writes: a numeral of at most `max`, or an
/// error at `position`.
pub fn parse_unsigned(value: &str, field: &'static str, position: usize, max: u64) -> (r: Result<u64>)
    ensures
        r matches Ok(v) ==> is_numeral(value@) && v == digits_value(value@) && v <= max,
        r is Err <==> !is_numeral(value@) || digits_value(value@) > max,
        r matches Err(e) ==> e is InvalidSequence,
{
    let chars = chars_of(value);
    match parse_numeral(&chars, max) {
        Some(v) => Ok(v),
        None => {
            let message = if crate::decimal::all_ascii_digits(&chars) && chars.len() > 0 {
                "integer is too large"
            } else {
                "must be an unsigned ASCII integer"
            };
            Err(Error::InvalidSequence { position, field, message: text(message) })
        },
    }
}

} // verus!
