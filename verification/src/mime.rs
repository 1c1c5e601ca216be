//! The boundary to the external MIME parser. Parsing is a pure function of
//! the message bytes, so each accessor is named by an uninterpreted spec
//! function of those bytes, and the wrappers relate their results to the
//! names. All structure walking and classification is done by verified code
//! in `parse` on the plain values these wrappers return.

use vstd::prelude::*;

verus! {

/// Whether the external parser accepts the message bytes.
pub uninterp spec fn mime_parses(raw: Seq<u8>) -> bool;

/// The From mailboxes: display name and address of each, if present.
pub uninterp spec fn mime_from(raw: Seq<u8>) -> Option<
    Seq<(Option<Seq<u8>>, Option<Seq<u8>>)>,
>;

/// The To mailboxes: display name and address of each, if present.
pub uninterp spec fn mime_to(raw: Seq<u8>) -> Option<Seq<(Option<Seq<u8>>, Option<Seq<u8>>)>>;

/// The decoded Subject header, if present.
pub uninterp spec fn mime_subject(raw: Seq<u8>) -> Option<Seq<u8>>;

/// The names of the message's headers, in order.
pub uninterp spec fn mime_header_names(raw: Seq<u8>) -> Seq<Seq<u8>>;

/// The debug rendering of the i-th message header's parsed value.
pub uninterp spec fn mime_header_value_dbg(raw: Seq<u8>, i: int) -> Option<Seq<u8>>;

/// How many MIME parts the parsed message has.
pub uninterp spec fn mime_n_parts(raw: Seq<u8>) -> int;

/// Whether the i-th part is a text part.
pub uninterp spec fn mime_part_is_text(raw: Seq<u8>, i: int) -> Option<bool>;

/// The i-th part's Content-Type as (type, optional subtype), if it has one.
pub uninterp spec fn mime_part_content_type(raw: Seq<u8>, i: int) -> Option<
    Option<(Seq<u8>, Option<Seq<u8>>)>,
>;

/// The i-th part's Content-Disposition attributes, flattened to (name,
/// value) pairs; empty when the part has no disposition or no attributes.
pub uninterp spec fn mime_part_disposition_attrs(raw: Seq<u8>, i: int) -> Option<
    Seq<(Seq<u8>, Seq<u8>)>,
>;

/// The i-th part's Content-Type attributes, flattened the same way.
pub uninterp spec fn mime_part_ct_attrs(raw: Seq<u8>, i: int) -> Option<Seq<(Seq<u8>, Seq<u8>)>>;

/// The debug rendering of the i-th part's transfer encoding.
pub uninterp spec fn mime_part_encoding_dbg(raw: Seq<u8>, i: int) -> Option<Seq<u8>>;

/// The names of the i-th part's own headers, in order.
pub uninterp spec fn mime_part_header_names(raw: Seq<u8>, i: int) -> Option<Seq<Seq<u8>>>;

/// The debug rendering of the j-th header value of the i-th part.
pub uninterp spec fn mime_part_header_value_dbg(raw: Seq<u8>, i: int, j: int) -> Option<Seq<u8>>;

/// The i-th part's decoded body length in bytes.
pub uninterp spec fn mime_part_body_len(raw: Seq<u8>, i: int) -> Option<usize>;

/// The decoded text of the pos-th text body part.
pub uninterp spec fn mime_body_text(raw: Seq<u8>, pos: int) -> Option<Seq<u8>>;

/// The decoded HTML of the pos-th HTML body part.
pub uninterp spec fn mime_body_html(raw: Seq<u8>, pos: int) -> Option<Seq<u8>>;

/// Relies on mail_parser::MessageParser::parse: a deterministic parse of the
/// bytes that never panics.
#[verifier::external_body]
pub fn mail_parses(raw: &[u8]) -> (r: bool)
    ensures
        r == mime_parses(raw@),
{
    mail_parser::MessageParser::default().parse(raw).is_some()
}

/// Relies on mail_parser::Message::from and Addr::name / Addr::address.
#[verifier::external_body]
pub fn mail_from(raw: &[u8]) -> (r: Option<Vec<(Option<Vec<u8>>, Option<Vec<u8>>)>>)
    ensures
        r.deep_view() == mime_from(raw@),
        !mime_parses(raw@) ==> r.is_none(),
{
    let m = mail_parser::MessageParser::default().parse(raw)?;
    let addrs = m.from()?;
    Some(
        addrs.iter().map(
            |a|
                (
                    a.name().map(|s| s.as_bytes().to_vec()),
                    a.address().map(|s| s.as_bytes().to_vec()),
                ),
        ).collect(),
    )
}

/// Relies on mail_parser::Message::to and Addr::name / Addr::address.
#[verifier::external_body]
pub fn mail_to(raw: &[u8]) -> (r: Option<Vec<(Option<Vec<u8>>, Option<Vec<u8>>)>>)
    ensures
        r.deep_view() == mime_to(raw@),
        !mime_parses(raw@) ==> r.is_none(),
{
    let m = mail_parser::MessageParser::default().parse(raw)?;
    let addrs = m.to()?;
    Some(
        addrs.iter().map(
            |a|
                (
                    a.name().map(|s| s.as_bytes().to_vec()),
                    a.address().map(|s| s.as_bytes().to_vec()),
                ),
        ).collect(),
    )
}

/// Relies on mail_parser::Message::subject.
#[verifier::external_body]
pub fn mail_subject(raw: &[u8]) -> (r: Option<Vec<u8>>)
    ensures
        r.deep_view() == mime_subject(raw@),
        !mime_parses(raw@) ==> r.is_none(),
{
    let m = mail_parser::MessageParser::default().parse(raw)?;
    m.subject().map(|s| s.as_bytes().to_vec())
}

/// Relies on mail_parser::Message::headers and Header::name.
#[verifier::external_body]
pub fn mail_header_names(raw: &[u8]) -> (r: Vec<Vec<u8>>)
    ensures
        r.deep_view() == mime_header_names(raw@),
        !mime_parses(raw@) ==> r@.len() == 0,
{
    match mail_parser::MessageParser::default().parse(raw) {
        Some(m) => m.headers().iter().map(|h| h.name().as_bytes().to_vec()).collect(),
        None => Vec::new(),
    }
}

/// Relies on mail_parser::Message::headers and the Debug form of
/// Header::value.
#[verifier::external_body]
pub fn mail_header_value_debug(raw: &[u8], i: usize) -> (r: Option<Vec<u8>>)
    ensures
        r.deep_view() == mime_header_value_dbg(raw@, i as int),
        r.is_some() <==> (i as int) < mime_header_names(raw@).len(),
{
    let m = mail_parser::MessageParser::default().parse(raw)?;
    m.headers().get(i).map(|h| format!("{:?}", h.value()).into_bytes())
}

/// Relies on mail_parser::Message::parts.
#[verifier::external_body]
pub fn mail_n_parts(raw: &[u8]) -> (r: usize)
    ensures
        r as int == mime_n_parts(raw@),
        !mime_parses(raw@) ==> r == 0,
{
    match mail_parser::MessageParser::default().parse(raw) {
        Some(m) => m.parts.len(),
        None => 0,
    }
}

/// Relies on mail_parser::MessagePart::is_text.
#[verifier::external_body]
pub fn mail_part_is_text(raw: &[u8], i: usize) -> (r: Option<bool>)
    ensures
        r == mime_part_is_text(raw@, i as int),
        r.is_some() <==> (mime_parses(raw@) && (i as int) < mime_n_parts(raw@)),
{
    let m = mail_parser::MessageParser::default().parse(raw)?;
    m.parts.get(i).map(|p| p.is_text())
}

/// Relies on mail_parser::MimeHeaders::content_type and the ContentType
/// fields c_type and c_subtype.
#[verifier::external_body]
pub fn mail_part_content_type(raw: &[u8], i: usize) -> (r: Option<
    Option<(Vec<u8>, Option<Vec<u8>>)>,
>)
    ensures
        r.deep_view() == mime_part_content_type(raw@, i as int),
        r.is_some() <==> (mime_parses(raw@) && (i as int) < mime_n_parts(raw@)),
{
    let m = mail_parser::MessageParser::default().parse(raw)?;
    m.parts.get(i).map(
        |p|
            mail_parser::MimeHeaders::content_type(p).map(
                |ct|
                    (
                        ct.c_type.as_bytes().to_vec(),
                        ct.c_subtype.as_ref().map(|s| s.as_bytes().to_vec()),
                    ),
            ),
    )
}

/// Relies on mail_parser::MimeHeaders::content_disposition and
/// ContentType::attributes; a missing disposition or attribute list is the
/// empty list.
#[verifier::external_body]
pub fn mail_part_disposition_attrs(raw: &[u8], i: usize) -> (r: Option<Vec<(Vec<u8>, Vec<u8>)>>)
    ensures
        r.deep_view() == mime_part_disposition_attrs(raw@, i as int),
        r.is_some() <==> (mime_parses(raw@) && (i as int) < mime_n_parts(raw@)),
{
    let m = mail_parser::MessageParser::default().parse(raw)?;
    m.parts.get(i).map(
        |p|
            mail_parser::MimeHeaders::content_disposition(p).and_then(|cd| cd.attributes())
                .unwrap_or(&[]).iter().map(
                |a| (a.name.as_bytes().to_vec(), a.value.as_bytes().to_vec()),
            ).collect(),
    )
}

/// Relies on mail_parser::MimeHeaders::content_type and
/// ContentType::attributes; a missing content type or attribute list is the
/// empty list.
#[verifier::external_body]
pub fn mail_part_ct_attrs(raw: &[u8], i: usize) -> (r: Option<Vec<(Vec<u8>, Vec<u8>)>>)
    ensures
        r.deep_view() == mime_part_ct_attrs(raw@, i as int),
        r.is_some() <==> (mime_parses(raw@) && (i as int) < mime_n_parts(raw@)),
{
    let m = mail_parser::MessageParser::default().parse(raw)?;
    m.parts.get(i).map(
        |p|
            mail_parser::MimeHeaders::content_type(p).and_then(|ct| ct.attributes()).unwrap_or(
                &[],
            ).iter().map(|a| (a.name.as_bytes().to_vec(), a.value.as_bytes().to_vec())).collect(),
    )
}

/// Relies on the Debug form of mail_parser::Encoding.
#[verifier::external_body]
pub fn mail_part_encoding_debug(raw: &[u8], i: usize) -> (r: Option<Vec<u8>>)
    ensures
        r.deep_view() == mime_part_encoding_dbg(raw@, i as int),
        r.is_some() <==> (mime_parses(raw@) && (i as int) < mime_n_parts(raw@)),
{
    let m = mail_parser::MessageParser::default().parse(raw)?;
    m.parts.get(i).map(|p| format!("{:?}", p.encoding).into_bytes())
}

/// Relies on the headers field of mail_parser::MessagePart and Header::name.
#[verifier::external_body]
pub fn mail_part_header_names(raw: &[u8], i: usize) -> (r: Option<Vec<Vec<u8>>>)
    ensures
        r.deep_view() == mime_part_header_names(raw@, i as int),
        r.is_some() <==> (mime_parses(raw@) && (i as int) < mime_n_parts(raw@)),
{
    let m = mail_parser::MessageParser::default().parse(raw)?;
    m.parts.get(i).map(|p| p.headers.iter().map(|h| h.name().as_bytes().to_vec()).collect())
}

/// Relies on the headers field of mail_parser::MessagePart and the Debug
/// form of Header::value.
#[verifier::external_body]
pub fn mail_part_header_value_debug(raw: &[u8], i: usize, j: usize) -> (r: Option<Vec<u8>>)
    ensures
        r.deep_view() == mime_part_header_value_dbg(raw@, i as int, j as int),
        r.is_some() <==> (match mime_part_header_names(raw@, i as int) {
            Some(ns) => (j as int) < ns.len(),
            None => false,
        }),
{
    let m = mail_parser::MessageParser::default().parse(raw)?;
    m.parts.get(i).and_then(|p| p.headers.get(j).map(|h| format!("{:?}", h.value()).into_bytes()))
}

/// Relies on mail_parser::MessagePart::len, the decoded body's byte length.
#[verifier::external_body]
pub fn mail_part_body_len(raw: &[u8], i: usize) -> (r: Option<usize>)
    ensures
        r == mime_part_body_len(raw@, i as int),
        r.is_some() <==> (mime_parses(raw@) && (i as int) < mime_n_parts(raw@)),
{
    let m = mail_parser::MessageParser::default().parse(raw)?;
    m.parts.get(i).map(|p| p.len())
}

/// Relies on mail_parser::Message::body_text: the pos-th text body part,
/// decoded.
#[verifier::external_body]
pub fn mail_body_text(raw: &[u8], pos: usize) -> (r: Option<Vec<u8>>)
    ensures
        r.deep_view() == mime_body_text(raw@, pos as int),
        !mime_parses(raw@) ==> r.is_none(),
{
    let m = mail_parser::MessageParser::default().parse(raw)?;
    m.body_text(pos).map(|c| c.as_bytes().to_vec())
}

/// Relies on mail_parser::Message::body_html: the pos-th HTML body part,
/// decoded.
#[verifier::external_body]
pub fn mail_body_html(raw: &[u8], pos: usize) -> (r: Option<Vec<u8>>)
    ensures
        r.deep_view() == mime_body_html(raw@, pos as int),
        !mime_parses(raw@) ==> r.is_none(),
{
    let m = mail_parser::MessageParser::default().parse(raw)?;
    m.body_html(pos).map(|c| c.as_bytes().to_vec())
}

} // verus!
