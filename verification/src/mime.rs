//! Boundary to the `mailparse` crate.
//!
//! A raw byte stream is parsed once into a [`ParsedDoc`]; everything the
//! transducer later reads out of the parsed document is described by the
//! ghost model [`DocView`]. Parsing is a pure function of the bytes, so the
//! model of the parse result is given a name, [`doc_of`], and every reader
//! below promises to return the matching piece of that model.
//!
//! A [`ParsedDoc`] or [`PartHandle`] pairs a node of the parsed tree with
//! its piece of the model, and is built nowhere but here, right at that
//! pairing; the readers' promises therefore speak of the node they read.

use mailparse::MailHeaderMap;
use vstd::prelude::*;

verus! {

/// Ghost model of one MIME part: exactly the facts the transducer reads.
///
/// `body_raw` holds the part's transfer-decoded bytes (empty when decoding
/// fails); `body_text` holds the charset-decoded text, absent when decoding
/// fails.
#[verifier::ext_equal]
pub ghost struct PartView {
    /// The part's Content-Disposition marks it as an attachment.
    pub attachment: bool,
    /// The part declares a Content-Type header of its own.
    pub typed: bool,
    /// The part's MIME type, e.g. `text/plain`: the declared one, or
    /// `mailparse`'s `text/plain` default when the part declares none.
    pub mimetype: Seq<char>,
    /// The `filename` parameter of the Content-Disposition header.
    pub filename: Option<Seq<char>>,
    /// The value of the Content-ID header.
    pub cid: Option<Seq<char>>,
    /// The transfer-decoded body bytes.
    pub body_raw: Seq<u8>,
    /// The body as decoded text.
    pub body_text: Option<Seq<char>>,
}

/// Ghost model of a parsed mail document: its address headers, the document
/// itself seen as a single part (`root`), and its immediate sub-parts.
#[verifier::ext_equal]
pub ghost struct DocView {
    /// The value of the first `From` header.
    pub sender: Option<Seq<char>>,
    /// The values of all `To` headers, in appearance order.
    pub recipients: Seq<Seq<char>>,
    /// The value of the first `Subject` header.
    pub subject: Option<Seq<char>>,
    /// The whole document seen as one (non-multipart) part.
    pub root: PartView,
    /// The immediate sub-parts; empty for a non-multipart document.
    pub subparts: Seq<PartView>,
}

/// The model of what `mailparse` extracts from a byte stream: `None` when
/// the stream is not a parseable mail document. Parsing depends on the
/// bytes alone, so this is a well-defined function of them.
pub uninterp spec fn doc_of(data: Seq<u8>) -> Option<DocView>;

/// The view of an optional string, absent values kept absent.
pub open spec fn opt_str_view(o: Option<String>) -> Option<Seq<char>> {
    match o {
        Some(s) => Some(s@),
        None => None,
    }
}

#[verifier::external_type_specification]
#[verifier::external_body]
pub struct ExParsedMail<'a>(mailparse::ParsedMail<'a>);

/// A parsed mail document, carrying its ghost model.
pub(crate) struct ParsedDoc<'a> {
    inner: mailparse::ParsedMail<'a>,
    model: Ghost<DocView>,
}

impl<'a> View for ParsedDoc<'a> {
    type V = DocView;

    closed spec fn view(&self) -> DocView {
        self.model@
    }
}

/// One part of a parsed document, carrying its ghost model.
pub(crate) struct PartHandle<'a> {
    inner: &'a mailparse::ParsedMail<'a>,
    model: Ghost<PartView>,
}

impl<'a> View for PartHandle<'a> {
    type V = PartView;

    closed spec fn view(&self) -> PartView {
        self.model@
    }
}

/// Relies on `mailparse::parse_mail`: the parse is a function of the bytes
/// alone, and it succeeds exactly when the model named `doc_of` exists.
#[verifier::external_body]
fn parse_inner<'a>(data: &'a [u8]) -> (r: Option<mailparse::ParsedMail<'a>>)
    ensures
        r is Some <==> doc_of(data@) is Some,
{
    mailparse::parse_mail(data).ok()
}

/// Parse a byte stream once, pairing the parsed document with its model.
pub(crate) fn parse_doc<'a>(data: &'a [u8]) -> (r: Option<ParsedDoc<'a>>)
    ensures
        r is Some <==> doc_of(data@) is Some,
        r matches Some(d) ==> Some(d@) == doc_of(data@),
{
    match parse_inner(data) {
        Some(inner) => Some(ParsedDoc { inner, model: Ghost(doc_of(data@)->Some_0) }),
        None => None,
    }
}

/// Relies on `mailparse::MailHeaderMap::get_first_value`: the value of the
/// first `From` header, if any.
#[verifier::external_body]
pub(crate) fn doc_sender(d: &ParsedDoc) -> (r: Option<String>)
    ensures
        opt_str_view(r) == d@.sender,
{
    d.inner.headers.get_first_value("From")
}

/// Relies on `mailparse::MailHeaderMap::get_all_values`: the values of all
/// `To` headers, in the order they stand in the message.
#[verifier::external_body]
pub(crate) fn doc_recipients(d: &ParsedDoc) -> (r: Vec<String>)
    ensures
        r.deep_view() == d@.recipients,
{
    d.inner.headers.get_all_values("To")
}

/// Relies on `mailparse::MailHeaderMap::get_first_value`: the value of the
/// first `Subject` header, if any.
#[verifier::external_body]
pub(crate) fn doc_subject(d: &ParsedDoc) -> (r: Option<String>)
    ensures
        opt_str_view(r) == d@.subject,
{
    d.inner.headers.get_first_value("Subject")
}

/// Relies on the `subparts` field of `mailparse::ParsedMail`: the number of
/// immediate sub-parts of the document.
#[verifier::external_body]
pub(crate) fn doc_subparts_len(d: &ParsedDoc) -> (r: usize)
    ensures
        r == d@.subparts.len(),
{
    d.inner.subparts.len()
}

/// The parsed document itself, borrowed as one MIME node.
#[verifier::external_body]
fn root_ref<'a, 'b>(d: &'a ParsedDoc<'b>) -> &'a mailparse::ParsedMail<'a>
{
    &d.inner
}

/// Relies on the `subparts` field of `mailparse::ParsedMail`: the `i`-th
/// immediate sub-part of the document, whose list is as long as the
/// model's.
#[verifier::external_body]
fn sub_ref<'a, 'b>(d: &'a ParsedDoc<'b>, i: usize) -> &'a mailparse::ParsedMail<'a>
    requires
        i < d@.subparts.len(),
{
    &d.inner.subparts[i]
}

/// The whole document seen as a single part (a non-multipart message has
/// exactly one part: itself), paired with its model.
pub(crate) fn doc_root_part<'a, 'b>(d: &'a ParsedDoc<'b>) -> (p: PartHandle<'a>)
    ensures
        p@ == d@.root,
{
    PartHandle { inner: root_ref(d), model: Ghost(d@.root) }
}

/// The `i`-th immediate sub-part of the document, paired with its model.
pub(crate) fn doc_sub_part<'a, 'b>(d: &'a ParsedDoc<'b>, i: usize) -> (p: PartHandle<'a>)
    requires
        i < d@.subparts.len(),
    ensures
        p@ == d@.subparts[i as int],
{
    PartHandle { inner: sub_ref(d, i), model: Ghost(d@.subparts[i as int]) }
}

/// Relies on the `ctype` field of `mailparse::ParsedMail`: the part's
/// MIME type, defaulted to `text/plain` when none is declared.
#[verifier::external_body]
pub(crate) fn part_mimetype(p: &PartHandle) -> (r: String)
    ensures
        r@ == p@.mimetype,
{
    p.inner.ctype.mimetype.clone()
}

/// Relies on `mailparse::MailHeaderMap::get_first_value`: whether the part
/// declares a Content-Type header of its own.
#[verifier::external_body]
pub(crate) fn part_has_ctype(p: &PartHandle) -> (r: bool)
    ensures
        r == p@.typed,
{
    p.inner.headers.get_first_value("Content-Type").is_some()
}

/// Relies on `mailparse::ParsedMail::get_content_disposition`: whether the
/// part's Content-Disposition marks it as an attachment.
#[verifier::external_body]
pub(crate) fn part_is_attachment(p: &PartHandle) -> (r: bool)
    ensures
        r == p@.attachment,
{
    matches!(
        p.inner.get_content_disposition().disposition,
        mailparse::DispositionType::Attachment
    )
}

/// Relies on `mailparse::ParsedMail::get_content_disposition`: the
/// `filename` parameter of the part's Content-Disposition header, if any.
#[verifier::external_body]
pub(crate) fn part_filename(p: &PartHandle) -> (r: Option<String>)
    ensures
        opt_str_view(r) == p@.filename,
{
    p.inner.get_content_disposition().params.get("filename").cloned()
}

/// Relies on `mailparse::MailHeaderMap::get_first_value`: the value of the
/// part's Content-ID header, if any.
#[verifier::external_body]
pub(crate) fn part_cid(p: &PartHandle) -> (r: Option<String>)
    ensures
        opt_str_view(r) == p@.cid,
{
    p.inner.headers.get_first_value("Content-ID")
}

/// Relies on `mailparse::ParsedMail::get_body_raw`: the part's
/// transfer-decoded body bytes, empty when decoding fails.
#[verifier::external_body]
pub(crate) fn part_body_raw(p: &PartHandle) -> (r: Vec<u8>)
    ensures
        r@ == p@.body_raw,
{
    p.inner.get_body_raw().unwrap_or_default()
}

/// Relies on `mailparse::ParsedMail::get_body`: the part's body as decoded
/// text, absent when decoding fails.
#[verifier::external_body]
pub(crate) fn part_body_text(p: &PartHandle) -> (r: Option<String>)
    ensures
        opt_str_view(r) == p@.body_text,
{
    p.inner.get_body().ok()
}

/// A timezone-qualified UTC timestamp: RFC 3339 text carrying the zero
/// offset, `+00:00`.
pub open spec fn is_utc_stamp(s: Seq<char>) -> bool {
    &&& s.len() >= 25
    &&& s.subrange(s.len() - 6, s.len() as int) == "+00:00"@
}

/// Relies on `chrono::Utc::now` and `chrono::DateTime::to_rfc3339` for the
/// current UTC time; the value depends on the clock, so only its shape is
/// promised: `to_rfc3339` on a UTC time always writes date, `T`, time and
/// the `+00:00` offset, 25 characters at least.
#[verifier::external_body]
pub(crate) fn now_rfc3339() -> (r: String)
    ensures
        is_utc_stamp(r@),
{
    chrono::Utc::now().to_rfc3339()
}

} // verus!
