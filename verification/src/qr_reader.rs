//! Reading by square documents from raster images of their QR codes.

use vstd::prelude::*;
use crate::codec::{fault_error, pay_header, payload_decoded, payload_fault, Header};
use crate::decimal::{trim_chars, trimmed};
use crate::document::{decode, document_decodable, document_decoded, Document};
use crate::error::{Error, Result};
use crate::fields::{split_tabs, texts};
use crate::pay::decoder::{pay_decodable, pay_decoded, pay_payload_sequence};
use crate::numeral::{nat_text, u64_string};
use crate::pay::models::Pay;
use crate::text::{chars_of, string_from_chars};

verus! {

/// Candidate QR grids as plain values: whether each was read, and its text
/// or the message of its error.
pub open spec fn grid_views(grids: Seq<(bool, String)>) -> Seq<(bool, Seq<char>)> {
    grids.map_values(|g: (bool, String)| (g.0, g.1@))
}

/// What raster image bytes show as QR grids: per candidate grid, whether it
/// was read and its text or the message of its error; or the message of the
/// error that decoding the image reports.
pub uninterp spec fn image_grids(bytes: Seq<u8>) -> core::result::Result<Seq<(bool, Seq<char>)>, Seq<char>>;

/// The grids that image bytes show, when they decode as an image.
pub open spec fn grids_of(bytes: Seq<u8>) -> Seq<(bool, Seq<char>)> {
    image_grids(bytes)->Ok_0
}

/// The message of the error that decoding image bytes reports, when they do
/// not decode.
pub open spec fn image_error(bytes: Seq<u8>) -> Seq<char> {
    image_grids(bytes)->Err_0
}

/// `image::load_from_memory`, then `rqrr::PreparedImage::detect_grids` on the
/// grey-scale form of the image, each grid read by `rqrr::Grid::decode`.
///
/// Claimed: both crates compute from the bytes alone, so the outcome is the
/// named one (`image_grids`). Whether either crate can panic on crafted
/// bytes is not settled by their sources, and is not guarded here.
#[verifier::external_body]
fn read_image_grids(bytes: &[u8]) -> (r: core::result::Result<Vec<(bool, String)>, String>)
    ensures
        r is Ok <==> image_grids(bytes@) is Ok,
        r matches Ok(v) ==> image_grids(bytes@)->Ok_0 == grid_views(v@),
        r matches Err(m) ==> image_grids(bytes@)->Err_0 == m@,
{
    let image = image::load_from_memory(bytes).map_err(|error| error.to_string())?;
    let mut prepared = rqrr::PreparedImage::prepare(image.to_luma8());
    let mut out = Vec::new();
    for grid in prepared.detect_grids() {
        match grid.decode() {
            Ok((_, payload)) => out.push((true, payload)),
            Err(error) => out.push((false, error.to_string())),
        }
    }
    Ok(out)
}

/// The texts of the grids that were read, in order.
pub open spec fn read_texts(grids: Seq<(bool, Seq<char>)>) -> Seq<Seq<char>>
    decreases grids.len(),
{
    if grids.len() == 0 {
        seq![]
    } else if grids.last().0 {
        read_texts(grids.drop_last()).push(grids.last().1)
    } else {
        read_texts(grids.drop_last())
    }
}

/// The error messages of the grids that could not be read, in order.
pub open spec fn failure_texts(grids: Seq<(bool, Seq<char>)>) -> Seq<Seq<char>>
    decreases grids.len(),
{
    if grids.len() == 0 {
        seq![]
    } else if grids.last().0 {
        failure_texts(grids.drop_last())
    } else {
        failure_texts(grids.drop_last()).push(grids.last().1)
    }
}

/// Texts joined by `"; "`.
pub open spec fn semicolon_joined(parts: Seq<Seq<char>>) -> Seq<char>
    decreases parts.len(),
{
    if parts.len() == 0 {
        seq![]
    } else if parts.len() == 1 {
        parts[0]
    } else {
        semicolon_joined(parts.drop_last()) + "; "@ + parts.last()
    }
}

/// The report of candidate grids none of which could be read: their number,
/// then every grid's error message.
pub open spec fn unread_report(grids: Seq<(bool, Seq<char>)>) -> Seq<char> {
    "detected "@ + nat_text(grids.len()) + " candidate grids; "@ + semicolon_joined(failure_texts(grids))
}

/// The payloads that candidate QR grids gave: an error when there was no
/// grid, or when no grid could be read.
pub fn payloads_from_grids(grids: Vec<(bool, String)>) -> (r: Result<Vec<String>>)
    ensures
        grids@.len() == 0 ==> r matches Err(Error::QrNotFound),
        grids@.len() > 0 && read_texts(grid_views(grids@)).len() == 0 ==> (r matches Err(Error::QrDecode(m))
            && m@ == unread_report(grid_views(grids@))),
        read_texts(grid_views(grids@)).len() > 0 ==> (r matches Ok(v) && texts(v@) == read_texts(
            grid_views(grids@),
        )),
{
    let ghost g = grid_views(grids@);
    if grids.len() == 0 {
        return Err(Error::QrNotFound);
    }
    let mut payloads: Vec<String> = Vec::new();
    let mut messages = String::new();
    let mut failures: usize = 0;
    let mut i: usize = 0;
    while i < grids.len()
        invariant
            i <= grids@.len(),
            g == grid_views(grids@),
            texts(payloads@) == read_texts(g.take(i as int)),
            failures == failure_texts(g.take(i as int)).len(),
            failures <= i,
            messages@ == semicolon_joined(failure_texts(g.take(i as int))),
        decreases grids.len() - i,
    {
        assert(g.take(i + 1).drop_last() =~= g.take(i as int));
        assert(g.take(i + 1).last() == g[i as int]);
        assert(g[i as int] == (grids@[i as int].0, grids@[i as int].1@));
        let read = grids[i].0;
        let value = grids[i].1.clone();
        if read {
            payloads.push(value);
            assert(texts(payloads@) =~= read_texts(g.take(i as int)).push(g[i as int].1));
        } else {
            let ghost parts = failure_texts(g.take(i + 1));
            assert(parts.drop_last() =~= failure_texts(g.take(i as int)));
            if failures == 0 {
                messages = value;
                assert(parts.len() == 1);
            } else {
                let separated = crate::text::concat(messages.as_str(), "; ");
                messages = crate::text::concat(separated.as_str(), value.as_str());
            }
            failures = failures + 1;
        }
        i = i + 1;
    }
    assert(g.take(grids@.len() as int) =~= g);
    if payloads.len() == 0 {
        let count = u64_string(grids.len() as u64);
        let opened = crate::text::concat("detected ", count.as_str());
        let head = crate::text::concat(opened.as_str(), " candidate grids; ");
        let report = crate::text::concat(head.as_str(), messages.as_str());
        return Err(Error::QrDecode(report));
    }
    Ok(payloads)
}

/// Every QR text payload in raster image bytes: the texts of the grids that
/// were read, in order; an error when the bytes are no image, when no grid
/// was found, or when none could be read.
pub fn extract_payloads_from_bytes(bytes: &[u8]) -> (r: Result<Vec<String>>)
    ensures
        image_grids(bytes@) is Err ==> (r matches Err(Error::ImageDecode(e)) && e@ == image_error(bytes@)),
        image_grids(bytes@) is Ok && grids_of(bytes@).len() == 0 ==> r matches Err(Error::QrNotFound),
        image_grids(bytes@) is Ok && grids_of(bytes@).len() > 0 && read_texts(grids_of(bytes@)).len() == 0 ==> (r matches Err(
            Error::QrDecode(m),
        ) && m@ == unread_report(grids_of(bytes@))),
        image_grids(bytes@) is Ok && read_texts(grids_of(bytes@)).len() > 0 ==> (r matches Ok(v) && texts(v@)
            == read_texts(grids_of(bytes@))),
{
    match read_image_grids(bytes) {
        Ok(grids) => payloads_from_grids(grids),
        Err(message) => Err(Error::ImageDecode(message)),
    }
}

/// A payload without surrounding white space.
fn trim_payload(payload: &String) -> (r: String)
    ensures
        r@ == trimmed(payload@),
{
    let chars = chars_of(payload.as_str());
    string_from_chars(trim_chars(&chars).as_slice())
}

/// Whether a payload, without surrounding white space, is a document.
pub open spec fn is_document(payload: Seq<char>, d: Document) -> bool {
    exists|h: Header, s: Seq<char>|
        payload_decoded(trimmed(payload)) == Some((h, s)) && document_decoded(h, split_tabs(s), d)
}

/// The number of payloads that are, without surrounding white space, by
/// square documents.
pub open spec fn document_count(payloads: Seq<Seq<char>>) -> nat
    decreases payloads.len(),
{
    if payloads.len() == 0 {
        0
    } else {
        document_count(payloads.drop_last()) + if document_decodable(trimmed(payloads.last())) {
            1nat
        } else {
            0nat
        }
    }
}

/// Exactly one by square document among QR payloads; the others are
/// ignored. Two or more documents are ambiguous and none is chosen.
pub fn decode_document_payloads(payloads: Vec<String>) -> (r: Result<Document>)
    ensures
        r matches Ok(d) ==> exists|k: int| 0 <= k < payloads@.len() && is_document(#[trigger] payloads@[k]@, d),
        r is Ok <==> document_count(texts(payloads@)) == 1,
        document_count(texts(payloads@)) == 0 ==> (r matches Err(Error::BySquareQrNotFound { decoded })
            && decoded == payloads@.len()),
        document_count(texts(payloads@)) >= 2 ==> (r matches Err(Error::MultipleBySquareQrCodes(c))
            && c == document_count(texts(payloads@))),
{
    let ghost all = texts(payloads@);
    let mut found: Option<Document> = None;
    let mut count: usize = 0;
    let mut i: usize = 0;
    while i < payloads.len()
        invariant
            i <= payloads@.len(),
            all == texts(payloads@),
            count <= i,
            count == document_count(all.take(i as int)),
            (count == 0) == (found is None),
            found matches Some(d) ==> exists|k: int| 0 <= k < i && is_document(#[trigger] payloads@[k]@, d),
        decreases payloads.len() - i,
    {
        assert(all.take(i + 1).drop_last() =~= all.take(i as int));
        assert(all.take(i + 1).last() == payloads@[i as int]@);
        let payload = trim_payload(&payloads[i]);
        match decode(payload.as_str()) {
            Ok(d) => {
                if count == 0 {
                    assert(is_document(payloads@[i as int]@, d));
                    found = Some(d);
                }
                count = count + 1;
            },
            Err(_) => {},
        }
        i = i + 1;
    }
    assert(all.take(payloads@.len() as int) =~= all);
    if count >= 2 {
        return Err(Error::MultipleBySquareQrCodes(count));
    }
    match found {
        Some(d) => Ok(d),
        None => Err(Error::BySquareQrNotFound { decoded: payloads.len() }),
    }
}

/// Whether a payload, without surrounding white space, is a PAY document.
pub open spec fn is_pay(payload: Seq<char>, p: Pay) -> bool {
    exists|s: Seq<char>| payload_decoded(trimmed(payload)) == Some((pay_header(), s)) && pay_decoded(split_tabs(s), p)
}

/// Whether payload text decodes to an acceptable PAY sequence under the PAY
/// header.
pub open spec fn pay_payload_ok(payload: Seq<char>) -> bool {
    pay_payload_sequence(payload) matches Some(s) && pay_decodable(split_tabs(s))
}

/// The number of payloads that are, without surrounding white space, PAY
/// documents.
pub open spec fn pay_count(payloads: Seq<Seq<char>>) -> nat
    decreases payloads.len(),
{
    if payloads.len() == 0 {
        0
    } else {
        pay_count(payloads.drop_last()) + if pay_payload_ok(trimmed(payloads.last())) {
            1nat
        } else {
            0nat
        }
    }
}

/// Exactly one PAY document among QR payloads; a single payload must be one,
/// and fails as it does. Among several, the others are ignored, and two or
/// more PAY documents are ambiguous.
pub fn decode_pay_payloads(payloads: Vec<String>) -> (r: Result<Pay>)
    ensures
        r matches Ok(p) ==> exists|k: int| 0 <= k < payloads@.len() && is_pay(#[trigger] payloads@[k]@, p),
        r is Ok <==> pay_count(texts(payloads@)) == 1,
        payloads@.len() != 1 && pay_count(texts(payloads@)) == 0 ==> (r matches Err(
            Error::PayQrNotFound { decoded },
        ) && decoded == payloads@.len()),
        payloads@.len() != 1 && pay_count(texts(payloads@)) >= 2 ==> (r matches Err(
            Error::MultiplePayQrCodes(c),
        ) && c == pay_count(texts(payloads@))),
        payloads@.len() == 1 ==> (payload_fault(trimmed(payloads@[0]@)) matches Some(f) ==> (r matches Err(e)
            && fault_error(f, e))),
        payloads@.len() == 1 ==> (payload_decoded(trimmed(payloads@[0]@)) matches Some((h, s)) && h
            != pay_header() ==> r matches Err(Error::InvalidPayload(_))),
        payloads@.len() == 1 ==> (r matches Err(e) ==> e is InvalidPayload || e is Compression
            || e is ChecksumMismatch || e is Utf8 || e is InvalidSequence),
{
    let ghost all = texts(payloads@);
    if payloads.len() == 1 {
        let payload = trim_payload(&payloads[0]);
        assert(all.drop_last() =~= Seq::<Seq<char>>::empty());
        assert(pay_count(all.drop_last()) == 0);
        assert(all.last() == payloads@[0]@);
        assert(pay_count(all) == if pay_payload_ok(trimmed(payloads@[0]@)) { 1nat } else { 0nat });
        let result = crate::pay::decoder::decode(payload.as_str());
        match result {
            Ok(p) => {
                assert(is_pay(payloads@[0]@, p));
                return Ok(p);
            },
            Err(e) => return Err(e),
        }
    }
    let mut found: Option<Pay> = None;
    let mut count: usize = 0;
    let mut i: usize = 0;
    while i < payloads.len()
        invariant
            i <= payloads@.len(),
            all == texts(payloads@),
            count <= i,
            count == pay_count(all.take(i as int)),
            (count == 0) == (found is None),
            found matches Some(p) ==> exists|k: int| 0 <= k < i && is_pay(#[trigger] payloads@[k]@, p),
        decreases payloads.len() - i,
    {
        assert(all.take(i + 1).drop_last() =~= all.take(i as int));
        assert(all.take(i + 1).last() == payloads@[i as int]@);
        let payload = trim_payload(&payloads[i]);
        match crate::pay::decoder::decode(payload.as_str()) {
            Ok(p) => {
                if count == 0 {
                    assert(is_pay(payloads@[i as int]@, p));
                    found = Some(p);
                }
                count = count + 1;
            },
            Err(_) => {},
        }
        i = i + 1;
    }
    assert(all.take(payloads@.len() as int) =~= all);
    if count >= 2 {
        return Err(Error::MultiplePayQrCodes(count));
    }
    match found {
        Some(p) => Ok(p),
        None => Err(Error::PayQrNotFound { decoded: payloads.len() }),
    }
}

/// The one by square document in raster image bytes: the errors of reading
/// the image's QR texts, or the outcome of choosing the one document among
/// them.
pub fn decode_document_from_bytes(bytes: &[u8]) -> (r: Result<Document>)
    ensures
        image_grids(bytes@) is Err ==> (r matches Err(Error::ImageDecode(e)) && e@ == image_error(bytes@)),
        image_grids(bytes@) is Ok && grids_of(bytes@).len() == 0 ==> r matches Err(Error::QrNotFound),
        image_grids(bytes@) is Ok && grids_of(bytes@).len() > 0 && read_texts(grids_of(bytes@)).len() == 0 ==> (r matches Err(
            Error::QrDecode(m),
        ) && m@ == unread_report(grids_of(bytes@))),
        image_grids(bytes@) is Ok && read_texts(grids_of(bytes@)).len() > 0 ==> (r is Ok <==> document_count(
            read_texts(grids_of(bytes@)),
        ) == 1),
        image_grids(bytes@) is Ok && read_texts(grids_of(bytes@)).len() > 0 && document_count(read_texts(grids_of(bytes@))) == 0
            ==> (r matches Err(Error::BySquareQrNotFound { decoded }) && decoded == read_texts(grids_of(bytes@)).len()),
        image_grids(bytes@) is Ok && read_texts(grids_of(bytes@)).len() > 0 && document_count(read_texts(grids_of(bytes@))) >= 2
            ==> (r matches Err(Error::MultipleBySquareQrCodes(c)) && c == document_count(read_texts(grids_of(bytes@)))),
        r matches Ok(d) ==> (image_grids(bytes@) is Ok && exists|k: int|
            0 <= k < read_texts(grids_of(bytes@)).len() && is_document(#[trigger] read_texts(grids_of(bytes@))[k], d)),
{
    let payloads = match extract_payloads_from_bytes(bytes) {
        Ok(p) => p,
        Err(e) => return Err(e),
    };
    let r = decode_document_payloads(payloads);
    proof {
        if r is Ok {
            let k = choose|k: int| 0 <= k < payloads@.len() && is_document(#[trigger] payloads@[k]@, r->Ok_0);
            assert(texts(payloads@)[k] == payloads@[k]@);
        }
    }
    r
}

/// The one PAY document in raster image bytes: the errors of reading the
/// image's QR texts, or the outcome of choosing the one PAY document among
/// them.
pub fn decode_pay_from_bytes(bytes: &[u8]) -> (r: Result<Pay>)
    ensures
        image_grids(bytes@) is Err ==> (r matches Err(Error::ImageDecode(e)) && e@ == image_error(bytes@)),
        image_grids(bytes@) is Ok && grids_of(bytes@).len() == 0 ==> r matches Err(Error::QrNotFound),
        image_grids(bytes@) is Ok && grids_of(bytes@).len() > 0 && read_texts(grids_of(bytes@)).len() == 0 ==> (r matches Err(
            Error::QrDecode(m),
        ) && m@ == unread_report(grids_of(bytes@))),
        image_grids(bytes@) is Ok && read_texts(grids_of(bytes@)).len() > 0 ==> (r is Ok <==> pay_count(read_texts(grids_of(bytes@)))
            == 1),
        image_grids(bytes@) is Ok && read_texts(grids_of(bytes@)).len() > 1 && pay_count(read_texts(grids_of(bytes@))) == 0 ==> (
        r matches Err(Error::PayQrNotFound { decoded }) && decoded == read_texts(grids_of(bytes@)).len()),
        image_grids(bytes@) is Ok && read_texts(grids_of(bytes@)).len() > 1 && pay_count(read_texts(grids_of(bytes@))) >= 2 ==> (
        r matches Err(Error::MultiplePayQrCodes(c)) && c == pay_count(read_texts(grids_of(bytes@)))),
        image_grids(bytes@) is Ok && read_texts(grids_of(bytes@)).len() == 1 ==> (payload_fault(
            trimmed(read_texts(grids_of(bytes@))[0]),
        ) matches Some(f) ==> (r matches Err(e) && fault_error(f, e))),
        r matches Ok(p) ==> (image_grids(bytes@) is Ok && exists|k: int|
            0 <= k < read_texts(grids_of(bytes@)).len() && is_pay(#[trigger] read_texts(grids_of(bytes@))[k], p)),
{
    let payloads = match extract_payloads_from_bytes(bytes) {
        Ok(p) => p,
        Err(e) => return Err(e),
    };
    let r = decode_pay_payloads(payloads);
    proof {
        if r is Ok {
            let k = choose|k: int| 0 <= k < payloads@.len() && is_pay(#[trigger] payloads@[k]@, r->Ok_0);
            assert(texts(payloads@)[k] == payloads@[k]@);
        }
        if payloads@.len() == 1 {
            assert(texts(payloads@)[0] == payloads@[0]@);
        }
    }
    r
}

} // verus!
