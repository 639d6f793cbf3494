//! Documents as JSON or XML text: which family a source holds, what the root
//! element of the XML form states, and the by square and XML Schema instance
//! namespaces and `xsi:type` that the root start tag gets once serialization
//! has written it.

use vstd::prelude::*;
use crate::decimal::{find_char, index_of, is_whitespace, slice_chars, trim_start};
use crate::error::{Error, Result};
use crate::invoice::models::{
    document_type_named, invoice_data_error, local_name, local_name_of, xsi_name, DocumentType, Invoice,
    InvoiceModelError, ModelResult,
};
use crate::invoice_items::models::{lines_error, InvoiceItems};
use crate::text::{chars_of, concat, same_text, string_from_chars};

verus! {

/// The text form of a document source.
#[derive(Clone, Copy, Debug, PartialEq, Eq, Structural)]
pub enum SourceFormat {
    Json,
    Xml,
}

/// A family of by square documents.
#[derive(Clone, Copy, Debug, PartialEq, Eq, Structural)]
pub enum DocumentFamily {
    Pay,
    Invoice,
    InvoiceItems,
}

/// The form of a source by its first character after leading white space:
/// `{` for JSON, `<` for XML.
pub open spec fn source_format_of(source: Seq<char>) -> Option<SourceFormat> {
    let t = trim_start(source);
    if t.len() > 0 && t[0] == '{' {
        Some(SourceFormat::Json)
    } else if t.len() > 0 && t[0] == '<' {
        Some(SourceFormat::Xml)
    } else {
        None
    }
}

/// The family that an XML root element names.
pub open spec fn family_named(root: Seq<char>) -> Option<DocumentFamily> {
    if root == "Pay"@ {
        Some(DocumentFamily::Pay)
    } else if root == "Invoice"@ {
        Some(DocumentFamily::Invoice)
    } else if root == "InvoiceItems"@ {
        Some(DocumentFamily::InvoiceItems)
    } else {
        None
    }
}

/// The family of a JSON object by its keys: `DocumentType` marks an
/// invoice, `FirstInvoiceLineID` together with `InvoiceLines` a block of
/// invoice items, and anything else is read as a PAY document.
pub open spec fn json_family_of(document_type: bool, first_invoice_line_id: bool, invoice_lines: bool) -> DocumentFamily {
    if document_type {
        DocumentFamily::Invoice
    } else if first_invoice_line_id && invoice_lines {
        DocumentFamily::InvoiceItems
    } else {
        DocumentFamily::Pay
    }
}

/// The form of a source; see [`source_format_of`].
pub fn source_format(source: &str) -> (r: Option<SourceFormat>)
    ensures
        r == source_format_of(source@),
{
    let chars = chars_of(source);
    let mut i: usize = 0;
    assert(chars@.skip(0) =~= chars@);
    while i < chars.len() && is_whitespace(chars[i])
        invariant
            i <= chars@.len(),
            chars@ == source@,
            trim_start(chars@) == trim_start(chars@.skip(i as int)),
        decreases chars.len() - i,
    {
        assert(chars@.skip(i as int).drop_first() =~= chars@.skip(i + 1));
        i = i + 1;
    }
    let ghost rest = chars@.skip(i as int);
    assert(trim_start(rest) == rest);
    if i < chars.len() && chars[i] == '{' {
        Some(SourceFormat::Json)
    } else if i < chars.len() && chars[i] == '<' {
        Some(SourceFormat::Xml)
    } else {
        None
    }
}

/// The family of a JSON object by which of three keys it holds; see
/// [`json_family_of`].
pub fn json_family(has_document_type: bool, has_first_invoice_line_id: bool, has_invoice_lines: bool) -> (r:
    DocumentFamily)
    ensures
        r == json_family_of(has_document_type, has_first_invoice_line_id, has_invoice_lines),
{
    if has_document_type {
        DocumentFamily::Invoice
    } else if has_first_invoice_line_id && has_invoice_lines {
        DocumentFamily::InvoiceItems
    } else {
        DocumentFamily::Pay
    }
}

/// The family that an XML root element names; any other root is
/// unsupported.
pub fn xml_family(root: &str) -> (r: Result<DocumentFamily>)
    ensures
        r matches Ok(f) ==> family_named(root@) == Some(f),
        r is Err <==> family_named(root@) is None,
        r matches Err(e) ==> e is Unsupported,
{
    if same_text(root, "Pay") {
        Ok(DocumentFamily::Pay)
    } else if same_text(root, "Invoice") {
        Ok(DocumentFamily::Invoice)
    } else if same_text(root, "InvoiceItems") {
        Ok(DocumentFamily::InvoiceItems)
    } else {
        Err(Error::Unsupported(concat("unsupported by square XML root ", root)))
    }
}

/// The document type that the root element of an INVOICE XML document
/// states by its `xsi:type` (`type_value`, the value of its first attribute
/// named `type` in any namespace): the root must be `Invoice` and the
/// attribute present.
pub fn invoice_xml_type(root: &str, type_value: Option<&str>) -> (r: ModelResult<DocumentType>)
    ensures
        root@ != "Invoice"@ ==> (r matches Err(e) && e.field_spec() == "Invoice XML"),
        root@ == "Invoice"@ && type_value is None ==> (r matches Err(e) && e.field_spec() == "DocumentType"),
        root@ == "Invoice"@ && type_value is Some ==> match document_type_named(local_name(type_value->0@)) {
            Some(t) => r matches Ok(u) && u == t,
            None => r matches Err(e) && e.field_spec() == "DocumentType",
        },
{
    if !same_text(root, "Invoice") {
        return Err(InvoiceModelError::invalid("Invoice XML", "root element must be Invoice"));
    }
    match type_value {
        Some(value) => DocumentType::from_xsi_type(value),
        None => Err(InvoiceModelError::invalid("DocumentType", "Invoice XML root is missing xsi:type")),
    }
}

/// Checks the root element of an INVOICE ITEMS XML document: it must be
/// `InvoiceItems`, and its `xsi:type` (`type_value`), when present, must name
/// `InvoiceItems` in any namespace.
pub fn check_items_xml_root(root: &str, type_value: Option<&str>) -> (r: ModelResult<()>)
    ensures
        r is Ok <==> root@ == "InvoiceItems"@ && (type_value is Some ==> local_name(type_value->0@)
            == "InvoiceItems"@),
        r matches Err(e) ==> e.field_spec() == "InvoiceItems XML",
{
    if !same_text(root, "InvoiceItems") {
        return Err(InvoiceModelError::invalid("InvoiceItems XML", "root element must be InvoiceItems"));
    }
    match type_value {
        Some(value) => {
            let local = local_name_of(value);
            if same_text(local.as_str(), "InvoiceItems") {
                Ok(())
            } else {
                Err(InvoiceModelError::invalid("InvoiceItems XML", "unknown xsi:type"))
            }
        },
        None => Ok(()),
    }
}

/// The attributes added to a root start tag: the by square namespace, the
/// XML Schema instance namespace and the `xsi:type`.
pub open spec fn root_attributes_text(xsi_type: Seq<char>) -> Seq<char> {
    " xmlns=\"http://www.bysquare.com/bysquare\" xmlns:xsi=\"http://www.w3.org/2001/XMLSchema-instance\" xsi:type=\""@
        + xsi_type + "\""@
}

/// `body` with `attributes` written just before the first `>`, when the text
/// before it begins with `<` and `root`; `None` when there is no `>` or the
/// text before it begins otherwise.
pub open spec fn with_root_attributes(body: Seq<char>, root: Seq<char>, attributes: Seq<char>) -> Option<
    Seq<char>,
> {
    let end = index_of(body, '>');
    let opening = seq!['<'] + root;
    if end < body.len() && end >= opening.len() && body.take(opening.len() as int) == opening {
        Some(body.take(end) + attributes + body.skip(end))
    } else {
        None
    }
}

/// The attributes of a root start tag for the `xsi:type` `xsi_type`.
fn root_attributes(xsi_type: &str) -> (r: String)
    ensures
        r@ == root_attributes_text(xsi_type@),
{
    let head = concat(
        " xmlns=\"http://www.bysquare.com/bysquare\" xmlns:xsi=\"http://www.w3.org/2001/XMLSchema-instance\" xsi:type=\"",
        xsi_type,
    );
    concat(head.as_str(), "\"")
}

/// Writes `attributes` into the start tag of `body`; see
/// [`with_root_attributes`].
pub fn insert_root_attributes(body: &str, root: &str, attributes: &str) -> (r: Option<String>)
    ensures
        r matches Some(t) ==> with_root_attributes(body@, root@, attributes@) == Some(t@),
        r is None ==> with_root_attributes(body@, root@, attributes@) is None,
{
    let chars = chars_of(body);
    let end = find_char(&chars, '>');
    let opening = concat("<", root);
    proof {
        reveal_strlit("<");
        assert("<"@ =~= seq!['<']);
    }
    let opening_chars = chars_of(opening.as_str());
    if end >= chars.len() || end < opening_chars.len() {
        return None;
    }
    let start = string_from_chars(slice_chars(&chars, 0, opening_chars.len()).as_slice());
    assert(chars@.subrange(0, opening_chars@.len() as int) =~= body@.take(opening@.len() as int));
    if !same_text(start.as_str(), opening.as_str()) {
        return None;
    }
    let before = string_from_chars(slice_chars(&chars, 0, end).as_slice());
    let after = string_from_chars(slice_chars(&chars, end, chars.len()).as_slice());
    assert(chars@.subrange(0, end as int) =~= body@.take(end as int));
    assert(chars@.subrange(end as int, chars@.len() as int) =~= body@.skip(end as int));
    let head = concat(before.as_str(), attributes);
    Some(concat(head.as_str(), after.as_str()))
}

impl Invoice {
    /// The XML document of the invoice, from the XML that serializing its
    /// data gives: the invoice's rules are checked, and the root `Invoice`
    /// element gets the namespaces and the document type's `xsi:type`.
    pub fn xml_document(&self, body: &str) -> (r: ModelResult<String>)
        ensures
            invoice_data_error(self.data) matches Some(f) ==> (r matches Err(e) && e.field_spec() == f),
            invoice_data_error(self.data) is None ==> match with_root_attributes(
                body@,
                "Invoice"@,
                root_attributes_text(xsi_name(self.document_type)),
            ) {
                Some(t) => r matches Ok(s) && s@ == t,
                None => r matches Err(e) && e.field_spec() == "Invoice XML",
            },
    {
        self.validate()?;
        let attributes = root_attributes(self.document_type.as_xsi_type());
        match insert_root_attributes(body, "Invoice", attributes.as_str()) {
            Some(document) => Ok(document),
            None => Err(InvoiceModelError::invalid("Invoice XML", "serialized root element is not Invoice")),
        }
    }
}

impl InvoiceItems {
    /// The XML document of the block, from the XML that serializing it
    /// gives: its lines are checked, and the root `InvoiceItems` element
    /// gets the namespaces and the `xsi:type` `InvoiceItems`.
    pub fn xml_document(&self, body: &str) -> (r: ModelResult<String>)
        ensures
            lines_error(self.invoice_lines.invoice_line@) matches Some(f) ==> (r matches Err(e)
                && e.field_spec() == f),
            lines_error(self.invoice_lines.invoice_line@) is None ==> match with_root_attributes(
                body@,
                "InvoiceItems"@,
                root_attributes_text("InvoiceItems"@),
            ) {
                Some(t) => r matches Ok(s) && s@ == t,
                None => r matches Err(e) && e.field_spec() == "InvoiceItems XML",
            },
    {
        self.validate()?;
        let attributes = root_attributes("InvoiceItems");
        match insert_root_attributes(body, "InvoiceItems", attributes.as_str()) {
            Some(document) => Ok(document),
            None => Err(
                InvoiceModelError::invalid("InvoiceItems XML", "serialized root element is not InvoiceItems"),
            ),
        }
    }
}

} // verus!
