//! The canonical record of one received mail transaction, and the
//! transducer that builds it from a raw byte stream.

use vstd::prelude::*;

use crate::mime::{
    doc_of, doc_recipients, doc_root_part, doc_sender, doc_sub_part, doc_subject,
    doc_subparts_len, is_utc_stamp, now_rfc3339, opt_str_view, parse_doc, part_body_raw,
    part_body_text, part_cid, part_filename, part_has_ctype, part_is_attachment, part_mimetype,
    DocView, PartView,
};

verus! {

/// A non-inline part of a message, kept as a record of its own.
#[derive(Debug, Clone)]
pub struct Attachment {
    /// Content identifier; empty when the part carries no Content-ID.
    pub cid: String,
    /// The declared MIME type of the part.
    pub file_type: String,
    /// The filename declared in the part's disposition parameters; empty
    /// when none is declared.
    pub filename: String,
    /// The transfer-decoded bytes of the part.
    pub body: Vec<u8>,
}

/// Mathematical model of an [`Attachment`].
#[verifier::ext_equal]
pub ghost struct AttachmentView {
    pub cid: Seq<char>,
    pub file_type: Seq<char>,
    pub filename: Seq<char>,
    pub body: Seq<u8>,
}

impl View for Attachment {
    type V = AttachmentView;

    open spec fn view(&self) -> AttachmentView {
        AttachmentView {
            cid: self.cid@,
            file_type: self.file_type@,
            filename: self.filename@,
            body: self.body@,
        }
    }
}

/// The canonical record of one received mail transaction.
#[derive(Debug, Clone)]
pub struct Message {
    /// Unique identifier; absent at creation, assigned only by storage.
    pub id: Option<usize>,
    /// Value of the first `From` header; empty when the header is absent.
    pub sender: String,
    /// Values of all `To` headers, in appearance order.
    pub recipients: Vec<String>,
    /// Value of the first `Subject` header; empty when the header is absent.
    pub subject: String,
    /// Timestamp of parse completion, UTC, RFC 3339 text.
    pub created_at: Option<String>,
    /// Attachment records, in the order the parts were encountered.
    pub attachments: Vec<Attachment>,
    /// The original raw payload, verbatim.
    pub source: Vec<u8>,
    /// Discovered body representations: `"source"` first, then `"html"`
    /// and/or `"plain"` in first-encounter order, never duplicated.
    pub formats: Vec<String>,
    /// Decoded HTML body of the last `text/html` inline part, if any.
    pub html: Option<String>,
    /// Decoded plain-text body of the last `text/plain` inline part, if any.
    pub plain: Option<String>,
}

/// Mathematical model of a [`Message`].
#[verifier::ext_equal]
pub ghost struct MessageView {
    pub id: Option<int>,
    pub sender: Seq<char>,
    pub recipients: Seq<Seq<char>>,
    pub subject: Seq<char>,
    pub created_at: Option<Seq<char>>,
    pub attachments: Seq<AttachmentView>,
    pub source: Seq<u8>,
    pub formats: Seq<Seq<char>>,
    pub html: Option<Seq<char>>,
    pub plain: Option<Seq<char>>,
}

impl View for Message {
    type V = MessageView;

    open spec fn view(&self) -> MessageView {
        MessageView {
            id: match self.id {
                Some(n) => Some(n as int),
                None => None,
            },
            sender: self.sender@,
            recipients: self.recipients.deep_view(),
            subject: self.subject@,
            created_at: opt_str_view(self.created_at),
            attachments: self.attachments@.map_values(|a: Attachment| a@),
            source: self.source@,
            formats: self.formats.deep_view(),
            html: opt_str_view(self.html),
            plain: opt_str_view(self.plain),
        }
    }
}

/// A notification envelope announcing a state change to subscribers; the
/// storage collaborator produces it with the stored [`Message`] as payload.
#[derive(Debug, Clone)]
pub struct MessageEvent {
    /// The kind of event, e.g. `"new"`.
    pub event_type: String,
    /// The message the event speaks of.
    pub message: Message,
}

/// Why a byte stream was rejected by the transducer.
#[derive(Debug, Clone, Copy, PartialEq, Eq, Structural)]
pub enum TransduceError {
    /// The byte stream is not a parseable mail document.
    MalformedInput,
}

/// The working part list of a document: its sub-parts when it has any,
/// otherwise the document itself as the only part.
pub open spec fn working_parts(d: DocView) -> Seq<PartView> {
    if d.subparts.len() > 0 {
        d.subparts
    } else {
        seq![d.root]
    }
}

/// An inline part whose declared Content-Type is `text/html`. A part that
/// declares no type of its own counts as neither html nor plain: it is
/// skipped, never promoted by a parser default.
pub open spec fn is_html_part(p: PartView) -> bool {
    !p.attachment && p.typed && p.mimetype == "text/html"@
}

/// An inline part whose declared Content-Type is `text/plain`.
pub open spec fn is_plain_part(p: PartView) -> bool {
    !p.attachment && p.typed && p.mimetype == "text/plain"@
}

/// The given sequence value, or empty when absent.
pub open spec fn seq_or_empty<A>(o: Option<Seq<A>>) -> Seq<A> {
    match o {
        Some(s) => s,
        None => Seq::empty(),
    }
}

/// The attachment record built from one attachment-disposed part: missing
/// disposition parameters and a missing Content-ID are replaced by the
/// empty string, never an error.
pub open spec fn attachment_record(p: PartView) -> AttachmentView {
    AttachmentView {
        cid: seq_or_empty(p.cid),
        file_type: p.mimetype,
        filename: seq_or_empty(p.filename),
        body: p.body_raw,
    }
}

/// The attachment records of a part list: one per attachment-disposed
/// part, in encounter order.
pub open spec fn attachments_of(parts: Seq<PartView>) -> Seq<AttachmentView> {
    parts.filter(|p: PartView| p.attachment).map_values(|p: PartView| attachment_record(p))
}

/// Some part of the list is an inline `text/html` part.
pub open spec fn has_html(parts: Seq<PartView>) -> bool {
    exists|i: int| 0 <= i < parts.len() && is_html_part(parts[i])
}

/// Some part of the list is an inline `text/plain` part.
pub open spec fn has_plain(parts: Seq<PartView>) -> bool {
    exists|i: int| 0 <= i < parts.len() && is_plain_part(parts[i])
}

/// The format markers contributed by the parts themselves: `"html"` and/or
/// `"plain"` at the first encounter of each kind, given which kinds were
/// already seen.
pub open spec fn formats_suffix(parts: Seq<PartView>, seen_html: bool, seen_plain: bool) -> Seq<
    Seq<char>,
>
    decreases parts.len(),
{
    if parts.len() == 0 {
        Seq::empty()
    } else {
        let p = parts[0];
        let marker: Seq<Seq<char>> = if is_html_part(p) && !seen_html {
            seq!["html"@]
        } else if is_plain_part(p) && !seen_plain {
            seq!["plain"@]
        } else {
            Seq::empty()
        };
        marker + formats_suffix(
            parts.drop_first(),
            seen_html || is_html_part(p),
            seen_plain || is_plain_part(p),
        )
    }
}

/// The discovered body representations: the literal `"source"` first, then
/// the markers the parts contribute.
pub open spec fn formats_of(parts: Seq<PartView>) -> Seq<Seq<char>> {
    seq!["source"@] + formats_suffix(parts, false, false)
}

/// The decoded text of the last inline `text/html` part, if any; absent
/// when that part failed to decode (last part wins).
pub open spec fn html_body_of(parts: Seq<PartView>) -> Option<Seq<char>>
    decreases parts.len(),
{
    if parts.len() == 0 {
        None
    } else if is_html_part(parts.last()) {
        parts.last().body_text
    } else {
        html_body_of(parts.drop_last())
    }
}

/// The decoded text of the last inline `text/plain` part, if any; absent
/// when that part failed to decode (last part wins).
pub open spec fn plain_body_of(parts: Seq<PartView>) -> Option<Seq<char>>
    decreases parts.len(),
{
    if parts.len() == 0 {
        None
    } else if is_plain_part(parts.last()) {
        parts.last().body_text
    } else {
        plain_body_of(parts.drop_last())
    }
}

/// The record the transducer owes for a document `d` parsed out of `data`,
/// stamped `stamp`: headers normalized to empty strings when absent, the
/// part list classified into attachments, formats and bodies, the raw
/// payload retained verbatim, and no identifier assigned.
pub open spec fn message_of(d: DocView, data: Seq<u8>, stamp: Seq<char>) -> MessageView {
    let parts = working_parts(d);
    MessageView {
        id: None,
        sender: seq_or_empty(d.sender),
        recipients: d.recipients,
        subject: seq_or_empty(d.subject),
        created_at: Some(stamp),
        attachments: attachments_of(parts),
        source: data,
        formats: formats_of(parts),
        html: html_body_of(parts),
        plain: plain_body_of(parts),
    }
}

impl Message {
    /// Parse a complete raw payload into a canonical record.
    ///
    /// Fails exactly when the bytes are not a parseable mail document; on
    /// success the record is `message_of` the parsed document, stamped with
    /// the current UTC time.
    pub fn parse(data: &Vec<u8>) -> (r: Result<Message, TransduceError>)
        ensures
            r is Ok <==> doc_of(data@) is Some,
            r matches Ok(m) ==> m@.created_at is Some && is_utc_stamp(m@.created_at->Some_0)
                && m@ == message_of(doc_of(data@)->Some_0, data@, m@.created_at->Some_0),
            r matches Err(e) ==> e == TransduceError::MalformedInput,
    {
        let doc = match parse_doc(data.as_slice()) {
            Some(d) => d,
            None => {
                return Err(TransduceError::MalformedInput);
            },
        };
        let ghost dv = doc@;
        let ghost parts = working_parts(dv);

        let sender = match doc_sender(&doc) {
            Some(s) => s,
            None => String::new(),
        };
        let recipients = doc_recipients(&doc);
        let subject = match doc_subject(&doc) {
            Some(s) => s,
            None => String::new(),
        };

        let n = doc_subparts_len(&doc);
        let num_parts: usize = if n == 0 {
            1
        } else {
            n
        };
        assert(parts.len() == num_parts);

        let mut formats: Vec<String> = Vec::new();
        formats.push("source".to_owned());
        let mut html: Option<String> = None;
        let mut plain: Option<String> = None;
        let mut attachments: Vec<Attachment> = Vec::new();
        let mut seen_html = false;
        let mut seen_plain = false;

        proof {
            assert(parts.take(0) =~= Seq::<PartView>::empty());
            assert(formats.deep_view() =~= formats_of(parts.take(0)));
            assert(attachments@.map_values(|a: Attachment| a@) =~= attachments_of(
                parts.take(0),
            )) by {
                reveal(Seq::filter);
            }
        }

        let mut i: usize = 0;
        while i < num_parts
            invariant
                dv == doc@,
                parts == working_parts(dv),
                num_parts == parts.len(),
                n == dv.subparts.len(),
                n == 0 ==> num_parts == 1,
                n != 0 ==> num_parts == n,
                i <= num_parts,
                formats.deep_view() == formats_of(parts.take(i as int)),
                seen_html == has_html(parts.take(i as int)),
                seen_plain == has_plain(parts.take(i as int)),
                opt_str_view(html) == html_body_of(parts.take(i as int)),
                opt_str_view(plain) == plain_body_of(parts.take(i as int)),
                attachments@.map_values(|a: Attachment| a@) == attachments_of(
                    parts.take(i as int),
                ),
            decreases num_parts - i,
        {
            let ghost prefix = parts.take(i as int);
            let ghost pv = parts[i as int];
            let p = if n == 0 {
                doc_root_part(&doc)
            } else {
                doc_sub_part(&doc, i)
            };
            proof {
                if n == 0 {
                    assert(parts =~= seq![dv.root]);
                }
                assert(p@ == pv);
                assert(parts.take(i + 1) =~= prefix.push(pv));
            }

            if part_is_attachment(&p) {
                let filename = match part_filename(&p) {
                    Some(f) => f,
                    None => String::new(),
                };
                let cid = match part_cid(&p) {
                    Some(c) => c,
                    None => String::new(),
                };
                let record = Attachment {
                    cid,
                    file_type: part_mimetype(&p),
                    filename,
                    body: part_body_raw(&p),
                };
                proof {
                    assert(record@ == attachment_record(pv));
                }
                attachments.push(record);
                proof {
                    lemma_step_attachment(prefix, pv);
                    assert(attachments@.map_values(|a: Attachment| a@) =~= attachments_of(
                        prefix,
                    ).push(attachment_record(pv)));
                }
            } else {
                let typed = part_has_ctype(&p);
                let mimetype = part_mimetype(&p);
                if typed && mimetype == "text/html".to_owned() {
                    if !seen_html {
                        formats.push("html".to_owned());
                        seen_html = true;
                    }
                    html = part_body_text(&p);
                } else if typed && mimetype == "text/plain".to_owned() {
                    if !seen_plain {
                        formats.push("plain".to_owned());
                        seen_plain = true;
                    }
                    plain = part_body_text(&p);
                }
                proof {
                    lemma_step_inline(prefix, pv);
                }
            }
            proof {
                reveal_strlit("text/html");
                reveal_strlit("text/plain");
                assert("text/html"@.len() == 9);
                assert("text/plain"@.len() == 10);
                assert("text/html"@ != "text/plain"@);
                lemma_step_common(prefix, pv);
                assert(seen_html == has_html(parts.take(i + 1)));
                assert(seen_plain == has_plain(parts.take(i + 1)));
            }
            i += 1;
        }

        proof {
            assert(parts.take(num_parts as int) =~= parts);
        }

        let stamp = now_rfc3339();
        let m = Message {
            id: None,
            sender,
            recipients,
            subject,
            created_at: Some(stamp),
            attachments,
            source: clone_bytes(data),
            formats,
            html,
            plain,
        };
        proof {
            assert(m@ =~= message_of(dv, data@, m@.created_at->Some_0));
        }
        Ok(m)
    }
}

/// A verbatim copy of a byte vector.
fn clone_bytes(data: &Vec<u8>) -> (r: Vec<u8>)
    ensures
        r@ == data@,
{
    let mut r: Vec<u8> = Vec::new();
    let mut i: usize = 0;
    while i < data.len()
        invariant
            i <= data.len(),
            r@ == data@.take(i as int),
        decreases data.len() - i,
    {
        r.push(data[i]);
        proof {
            assert(data@.take(i + 1) =~= data@.take(i as int).push(data@[i as int]));
        }
        i += 1;
    }
    proof {
        assert(data@.take(data@.len() as int) =~= data@);
    }
    r
}

/// When the From, To and Subject headers are present (with at least one
/// To), the record keeps the header values: the sender is the From value,
/// the recipients are as many as the To headers, and the subject is the
/// Subject header's literal value.
pub proof fn lemma_present_headers(d: DocView, data: Seq<u8>, stamp: Seq<char>)
    requires
        d.sender is Some,
        d.recipients.len() >= 1,
        d.subject is Some,
    ensures
        message_of(d, data, stamp).sender == d.sender->Some_0,
        d.sender->Some_0.len() > 0 ==> message_of(d, data, stamp).sender.len() > 0,
        message_of(d, data, stamp).recipients == d.recipients,
        message_of(d, data, stamp).recipients.len() >= 1,
        message_of(d, data, stamp).subject == d.subject->Some_0,
{
}

/// Without a Subject header the subject is exactly the empty string, never
/// an absent value; the sender is likewise empty without a From header.
pub proof fn lemma_missing_headers_empty(d: DocView, data: Seq<u8>, stamp: Seq<char>)
    ensures
        d.subject is None ==> message_of(d, data, stamp).subject == Seq::<char>::empty(),
        d.sender is None ==> message_of(d, data, stamp).sender == Seq::<char>::empty(),
{
}

/// The format list always begins with the literal `"source"`, every later
/// entry is `"html"` or `"plain"`, nothing is duplicated, and a marker is
/// present exactly when a matching inline part exists.
pub proof fn lemma_formats_shape(parts: Seq<PartView>)
    ensures
        formats_of(parts).len() >= 1,
        formats_of(parts)[0] == "source"@,
        formats_of(parts).no_duplicates(),
        formats_of(parts).contains("html"@) <==> has_html(parts),
        formats_of(parts).contains("plain"@) <==> has_plain(parts),
        forall|k: int| 1 <= k < formats_of(parts).len() ==> (#[trigger] formats_of(parts)[k]
            == "html"@ || formats_of(parts)[k] == "plain"@),
{
    reveal_strlit("source");
    reveal_strlit("html");
    reveal_strlit("plain");
    assert("source"@.len() == 6);
    assert("html"@.len() == 4);
    assert("plain"@.len() == 5);
    lemma_suffix_props(parts, false, false);
    let f = formats_of(parts);
    let s = formats_suffix(parts, false, false);
    assert(f[0] == "source"@);
    assert(forall|k: int| 1 <= k < f.len() ==> f[k] == #[trigger] s[k - 1]);
    if s.contains("html"@) {
        let k = choose|k: int| 0 <= k < s.len() && s[k] == "html"@;
        assert(f[k + 1] == "html"@);
        assert(f.contains("html"@));
    }
    if f.contains("html"@) {
        let k = choose|k: int| 0 <= k < f.len() && f[k] == "html"@;
        assert(k >= 1);
        assert(s[k - 1] == "html"@);
        assert(s.contains("html"@));
    }
    if s.contains("plain"@) {
        let k = choose|k: int| 0 <= k < s.len() && s[k] == "plain"@;
        assert(f[k + 1] == "plain"@);
        assert(f.contains("plain"@));
    }
    if f.contains("plain"@) {
        let k = choose|k: int| 0 <= k < f.len() && f[k] == "plain"@;
        assert(k >= 1);
        assert(s[k - 1] == "plain"@);
        assert(s.contains("plain"@));
    }
    assert forall|i: int, j: int| 0 <= i < j < f.len() implies f[i] != f[j] by {
        if i == 0 {
            assert(f[j] == s[j - 1]);
            assert(s[j - 1] == "html"@ || s[j - 1] == "plain"@);
        } else {
            assert(f[i] == s[i - 1] && f[j] == s[j - 1]);
        }
    }
}

/// For a part list holding one inline `text/plain` part and then one
/// inline `text/html` part, the discovered formats are exactly `source`,
/// `plain`, `html`, in encounter order; the two decoded bodies are the
/// parts' own, and no attachment record is made.
pub proof fn lemma_formats_plain_then_html(p0: PartView, p1: PartView)
    requires
        is_plain_part(p0),
        is_html_part(p1),
    ensures
        formats_of(seq![p0, p1]) =~= seq!["source"@, "plain"@, "html"@],
        plain_body_of(seq![p0, p1]) == p0.body_text,
        html_body_of(seq![p0, p1]) == p1.body_text,
        attachments_of(seq![p0, p1]) =~= Seq::<AttachmentView>::empty(),
{
    reveal_strlit("text/html");
    reveal_strlit("text/plain");
    assert("text/html"@.len() == 9);
    assert("text/plain"@.len() == 10);
    lemma_two_part_formats(p0, p1);
    lemma_two_part_inline_bodies(p0, p1);
}

/// For a part list holding one inline `text/html` part and then one
/// inline `text/plain` part, the discovered formats are exactly `source`,
/// `html`, `plain`, in encounter order; the two decoded bodies are the
/// parts' own, and no attachment record is made.
pub proof fn lemma_formats_html_then_plain(p0: PartView, p1: PartView)
    requires
        is_html_part(p0),
        is_plain_part(p1),
    ensures
        formats_of(seq![p0, p1]) =~= seq!["source"@, "html"@, "plain"@],
        html_body_of(seq![p0, p1]) == p0.body_text,
        plain_body_of(seq![p0, p1]) == p1.body_text,
        attachments_of(seq![p0, p1]) =~= Seq::<AttachmentView>::empty(),
{
    reveal_strlit("text/html");
    reveal_strlit("text/plain");
    assert("text/html"@.len() == 9);
    assert("text/plain"@.len() == 10);
    lemma_two_part_formats(p0, p1);
    lemma_two_part_inline_bodies(p0, p1);
}

/// The bodies and attachments of a two-part list of inline parts, one
/// plain and one html, in either order.
proof fn lemma_two_part_inline_bodies(p0: PartView, p1: PartView)
    requires
        "text/html"@ != "text/plain"@,
        !p0.attachment,
        !p1.attachment,
    ensures
        is_plain_part(p0) && is_html_part(p1) ==> plain_body_of(seq![p0, p1]) == p0.body_text
            && html_body_of(seq![p0, p1]) == p1.body_text,
        is_html_part(p0) && is_plain_part(p1) ==> html_body_of(seq![p0, p1]) == p0.body_text
            && plain_body_of(seq![p0, p1]) == p1.body_text,
        attachments_of(seq![p0, p1]) =~= Seq::<AttachmentView>::empty(),
{
    let parts = seq![p0, p1];
    assert(parts.last() == p1);
    assert(parts.drop_last() =~= seq![p0]);
    assert(seq![p0].last() == p0);
    assert(seq![p0].drop_last() =~= Seq::<PartView>::empty());
    if is_plain_part(p0) && is_html_part(p1) {
        assert(!is_plain_part(p1) && !is_html_part(p0));
        assert(html_body_of(parts) == p1.body_text);
        assert(plain_body_of(parts) == plain_body_of(seq![p0]));
        assert(plain_body_of(seq![p0]) == p0.body_text);
    }
    if is_html_part(p0) && is_plain_part(p1) {
        assert(!is_html_part(p1) && !is_plain_part(p0));
        assert(plain_body_of(parts) == p1.body_text);
        assert(html_body_of(parts) == html_body_of(seq![p0]));
        assert(html_body_of(seq![p0]) == p0.body_text);
    }
    assert(attachments_of(parts) =~= Seq::<AttachmentView>::empty()) by {
        reveal_with_fuel(Seq::filter, 4);
        assert(parts.drop_last() =~= seq![p0]);
        assert(seq![p0].drop_last() =~= Seq::<PartView>::empty());
        assert(parts.filter(|q: PartView| q.attachment) =~= seq![p0].filter(
            |q: PartView| q.attachment,
        ));
        assert(seq![p0].filter(|q: PartView| q.attachment) =~= Seq::<PartView>::empty());
    }
}

/// The markers of a two-part list, unfolded.
proof fn lemma_two_part_formats(p0: PartView, p1: PartView)
    requires
        "text/html"@ != "text/plain"@,
    ensures
        is_plain_part(p0) && is_html_part(p1) ==> formats_suffix(seq![p0, p1], false, false)
            =~= seq!["plain"@, "html"@],
        is_html_part(p0) && is_plain_part(p1) ==> formats_suffix(seq![p0, p1], false, false)
            =~= seq!["html"@, "plain"@],
{
    let parts = seq![p0, p1];
    assert(parts.drop_first() =~= seq![p1]);
    assert(seq![p1].drop_first() =~= Seq::<PartView>::empty());
    if is_plain_part(p0) && is_html_part(p1) {
        assert(!is_html_part(p0) && !is_plain_part(p1));
        assert(formats_suffix(seq![p1], false, true) =~= seq!["html"@] + formats_suffix(
            Seq::<PartView>::empty(),
            true,
            true,
        ));
        assert(formats_suffix(parts, false, false) =~= seq!["plain"@] + (seq!["html"@]
            + Seq::<Seq<char>>::empty()));
    }
    if is_html_part(p0) && is_plain_part(p1) {
        assert(!is_plain_part(p0) && !is_html_part(p1));
        assert(formats_suffix(seq![p1], true, false) =~= seq!["plain"@] + formats_suffix(
            Seq::<PartView>::empty(),
            true,
            true,
        ));
        assert(formats_suffix(parts, false, false) =~= seq!["html"@] + (seq!["plain"@]
            + Seq::<Seq<char>>::empty()));
    }
}

/// What the markers of a part list can hold: only `"html"` and `"plain"`,
/// each at most once, none of a kind already seen, and each exactly when a
/// matching inline part exists and its kind was not yet seen.
proof fn lemma_suffix_props(parts: Seq<PartView>, seen_html: bool, seen_plain: bool)
    ensures
        forall|k: int| 0 <= k < formats_suffix(parts, seen_html, seen_plain).len() ==> (
        #[trigger] formats_suffix(parts, seen_html, seen_plain)[k] == "html"@ || formats_suffix(
            parts,
            seen_html,
            seen_plain,
        )[k] == "plain"@),
        formats_suffix(parts, seen_html, seen_plain).contains("html"@) <==> (!seen_html
            && has_html(parts)),
        formats_suffix(parts, seen_html, seen_plain).contains("plain"@) <==> (!seen_plain
            && has_plain(parts)),
        formats_suffix(parts, seen_html, seen_plain).no_duplicates(),
    decreases parts.len(),
{
    reveal_strlit("html");
    reveal_strlit("plain");
    reveal_strlit("text/html");
    reveal_strlit("text/plain");
    assert("html"@.len() == 4);
    assert("plain"@.len() == 5);
    assert("text/html"@.len() == 9);
    assert("text/plain"@.len() == 10);
    let s = formats_suffix(parts, seen_html, seen_plain);
    if parts.len() == 0 {
        assert(!has_html(parts));
        assert(!has_plain(parts));
    } else {
        let h = parts[0];
        let rest = parts.drop_first();
        let sh2 = seen_html || is_html_part(h);
        let sp2 = seen_plain || is_plain_part(h);
        lemma_suffix_props(rest, sh2, sp2);
        lemma_has_unfold(parts);
        let marker: Seq<Seq<char>> = if is_html_part(h) && !seen_html {
            seq!["html"@]
        } else if is_plain_part(h) && !seen_plain {
            seq!["plain"@]
        } else {
            Seq::empty()
        };
        let tail = formats_suffix(rest, sh2, sp2);
        assert(s == marker + tail);
        assert(forall|k: int| 0 <= k < tail.len() ==> s[marker.len() + k] == #[trigger] tail[k]);
        if !seen_html && has_html(parts) {
            if is_html_part(h) {
                assert(s[0] == marker[0]);
                assert(s.contains("html"@));
            } else {
                assert(has_html(rest) && !sh2);
                let k = choose|k: int| 0 <= k < tail.len() && tail[k] == "html"@;
                assert(s[marker.len() + k] == "html"@);
                assert(s.contains("html"@));
            }
        }
        if !seen_plain && has_plain(parts) {
            if is_plain_part(h) && !is_html_part(h) {
                assert(s[0] == marker[0]);
                assert(s.contains("plain"@));
            } else if is_plain_part(h) && is_html_part(h) {
                assert(has_plain(rest) || is_plain_part(h));
                assert(!sp2 || tail.contains("plain"@));
                let k = choose|k: int| 0 <= k < tail.len() && tail[k] == "plain"@;
                assert(s[marker.len() + k] == "plain"@);
                assert(s.contains("plain"@));
            } else {
                assert(has_plain(rest) && !sp2);
                let k = choose|k: int| 0 <= k < tail.len() && tail[k] == "plain"@;
                assert(s[marker.len() + k] == "plain"@);
                assert(s.contains("plain"@));
            }
        }
        if s.contains("html"@) {
            let k = choose|k: int| 0 <= k < s.len() && s[k] == "html"@;
            if k >= marker.len() {
                assert(tail[k - marker.len()] == "html"@);
                assert(tail.contains("html"@));
                assert(!sh2 && has_html(rest));
                assert(!seen_html && has_html(parts));
            } else {
                assert(marker[k] == "html"@);
                assert(is_html_part(h) && !seen_html);
                assert(!seen_html && has_html(parts));
            }
        }
        if s.contains("plain"@) {
            let k = choose|k: int| 0 <= k < s.len() && s[k] == "plain"@;
            if k >= marker.len() {
                assert(tail[k - marker.len()] == "plain"@);
                assert(tail.contains("plain"@));
                assert(!sp2 && has_plain(rest));
                assert(!seen_plain && has_plain(parts));
            } else {
                assert(marker[k] == "plain"@);
                assert(is_plain_part(h) && !seen_plain);
                assert(!seen_plain && has_plain(parts));
            }
        }
        assert forall|i: int, j: int| 0 <= i < j < s.len() implies s[i] != s[j] by {
            if i >= marker.len() {
                assert(s[i] == tail[i - marker.len()] && s[j] == tail[j - marker.len()]);
            } else {
                assert(j >= marker.len());
                assert(s[j] == tail[j - marker.len()]);
                assert(tail.contains(s[j]));
            }
        }
    }
}

/// A non-empty part list has an inline html (plain) part exactly when its
/// first part is one or the rest has one.
proof fn lemma_has_unfold(s: Seq<PartView>)
    requires
        s.len() > 0,
    ensures
        has_html(s) == (is_html_part(s[0]) || has_html(s.drop_first())),
        has_plain(s) == (is_plain_part(s[0]) || has_plain(s.drop_first())),
{
    let rest = s.drop_first();
    if has_html(s) {
        let i = choose|i: int| 0 <= i < s.len() && is_html_part(s[i]);
        if i > 0 {
            assert(rest[i - 1] == s[i]);
            assert(has_html(rest));
        }
    }
    if has_html(rest) {
        let i = choose|i: int| 0 <= i < rest.len() && is_html_part(rest[i]);
        assert(s[i + 1] == rest[i]);
        assert(has_html(s));
    }
    if has_plain(s) {
        let i = choose|i: int| 0 <= i < s.len() && is_plain_part(s[i]);
        if i > 0 {
            assert(rest[i - 1] == s[i]);
            assert(has_plain(rest));
        }
    }
    if has_plain(rest) {
        let i = choose|i: int| 0 <= i < rest.len() && is_plain_part(rest[i]);
        assert(s[i + 1] == rest[i]);
        assert(has_plain(s));
    }
}

/// A single part marked as an attachment with a declared filename yields
/// exactly one attachment record, carrying that filename.
pub proof fn lemma_single_attachment(d: DocView, data: Seq<u8>, stamp: Seq<char>, fname: Seq<char>)
    requires
        d.subparts.len() == 0,
        d.root.attachment,
        d.root.filename == Some(fname),
    ensures
        message_of(d, data, stamp).attachments.len() == 1,
        message_of(d, data, stamp).attachments[0].filename == fname,
{
    let parts = working_parts(d);
    assert(parts =~= seq![d.root]);
    lemma_step_attachment(Seq::empty(), d.root);
    assert(Seq::<PartView>::empty().push(d.root) =~= parts);
    assert(attachments_of(Seq::<PartView>::empty()) =~= Seq::<AttachmentView>::empty()) by {
        reveal(Seq::filter);
    }
    assert(attachments_of(parts) =~= Seq::<AttachmentView>::empty().push(
        attachment_record(d.root),
    ));
}

/// Feeding the same byte stream twice yields records identical in every
/// field except the creation timestamp; the identifier is never set by the
/// transducer.
pub proof fn lemma_transducer_deterministic(
    d: DocView,
    data: Seq<u8>,
    stamp1: Seq<char>,
    stamp2: Seq<char>,
)
    ensures
        message_of(d, data, stamp1).id == None::<int>,
        message_of(d, data, stamp1).created_at == Some(stamp1),
        message_of(d, data, stamp1).id == message_of(d, data, stamp2).id,
        message_of(d, data, stamp1).sender == message_of(d, data, stamp2).sender,
        message_of(d, data, stamp1).recipients == message_of(d, data, stamp2).recipients,
        message_of(d, data, stamp1).subject == message_of(d, data, stamp2).subject,
        message_of(d, data, stamp1).attachments == message_of(d, data, stamp2).attachments,
        message_of(d, data, stamp1).source == message_of(d, data, stamp2).source,
        message_of(d, data, stamp1).formats == message_of(d, data, stamp2).formats,
        message_of(d, data, stamp1).html == message_of(d, data, stamp2).html,
        message_of(d, data, stamp1).plain == message_of(d, data, stamp2).plain,
{
}

/// An inline part that is neither `text/html` nor `text/plain` is skipped:
/// it contributes no attachment, no format marker and no body.
pub proof fn lemma_unrecognized_inline_skipped(parts: Seq<PartView>, p: PartView)
    requires
        !p.attachment,
        !is_html_part(p),
        !is_plain_part(p),
    ensures
        attachments_of(parts.push(p)) == attachments_of(parts),
        formats_of(parts.push(p)) == formats_of(parts),
        html_body_of(parts.push(p)) == html_body_of(parts),
        plain_body_of(parts.push(p)) == plain_body_of(parts),
{
    lemma_step_inline(parts, p);
    lemma_step_common(parts, p);
}

/// Appending an attachment-disposed part appends exactly its record to the
/// attachment list.
proof fn lemma_step_attachment(prefix: Seq<PartView>, p: PartView)
    requires
        p.attachment,
    ensures
        attachments_of(prefix.push(p)) == attachments_of(prefix).push(attachment_record(p)),
{
    reveal(Seq::filter);
    assert(prefix.push(p).drop_last() =~= prefix);
    assert(prefix.push(p).filter(|q: PartView| q.attachment) == prefix.filter(
        |q: PartView| q.attachment,
    ).push(p));
    assert(prefix.filter(|q: PartView| q.attachment).push(p).map_values(
        |q: PartView| attachment_record(q),
    ) =~= prefix.filter(|q: PartView| q.attachment).map_values(
        |q: PartView| attachment_record(q),
    ).push(attachment_record(p)));
}

/// Appending an inline part leaves the attachment list unchanged.
proof fn lemma_step_inline(prefix: Seq<PartView>, p: PartView)
    requires
        !p.attachment,
    ensures
        attachments_of(prefix.push(p)) == attachments_of(prefix),
{
    reveal(Seq::filter);
    assert(prefix.push(p).drop_last() =~= prefix);
    assert(prefix.push(p).filter(|q: PartView| q.attachment) == prefix.filter(
        |q: PartView| q.attachment,
    ));
}

/// One part appended to a prefix: how the format list, the seen kinds and
/// the two decoded bodies move.
proof fn lemma_step_common(prefix: Seq<PartView>, p: PartView)
    ensures
        has_html(prefix.push(p)) == (has_html(prefix) || is_html_part(p)),
        has_plain(prefix.push(p)) == (has_plain(prefix) || is_plain_part(p)),
        html_body_of(prefix.push(p)) == if is_html_part(p) {
            p.body_text
        } else {
            html_body_of(prefix)
        },
        plain_body_of(prefix.push(p)) == if is_plain_part(p) {
            p.body_text
        } else {
            plain_body_of(prefix)
        },
        formats_of(prefix.push(p)) == if is_html_part(p) && !has_html(prefix) {
            formats_of(prefix).push("html"@)
        } else if is_plain_part(p) && !has_plain(prefix) {
            formats_of(prefix).push("plain"@)
        } else {
            formats_of(prefix)
        },
{
    let s = prefix.push(p);
    assert(s.drop_last() =~= prefix);
    assert(s.last() == p);
    if has_html(prefix) {
        let i = choose|i: int| 0 <= i < prefix.len() && is_html_part(prefix[i]);
        assert(s[i] == prefix[i]);
        assert(has_html(s));
    }
    if has_plain(prefix) {
        let i = choose|i: int| 0 <= i < prefix.len() && is_plain_part(prefix[i]);
        assert(s[i] == prefix[i]);
        assert(has_plain(s));
    }
    if is_html_part(p) {
        assert(is_html_part(s[s.len() - 1]));
        assert(has_html(s));
    }
    if is_plain_part(p) {
        assert(is_plain_part(s[s.len() - 1]));
        assert(has_plain(s));
    }
    if has_html(s) && !is_html_part(p) {
        let i = choose|i: int| 0 <= i < s.len() && is_html_part(s[i]);
        assert(prefix[i] == s[i]);
        assert(has_html(prefix));
    }
    if has_plain(s) && !is_plain_part(p) {
        let i = choose|i: int| 0 <= i < s.len() && is_plain_part(s[i]);
        assert(prefix[i] == s[i]);
        assert(has_plain(prefix));
    }
    lemma_formats_suffix_push(prefix, p, false, false);
}

/// Appending a part to the list extends the contributed format markers by
/// the marker of the part, if its kind was not seen before it.
proof fn lemma_formats_suffix_push(s: Seq<PartView>, p: PartView, seen_html: bool, seen_plain: bool)
    ensures
        formats_suffix(s.push(p), seen_html, seen_plain) == formats_suffix(
            s,
            seen_html,
            seen_plain,
        ) + (if is_html_part(p) && !(seen_html || has_html(s)) {
            seq!["html"@]
        } else if is_plain_part(p) && !(seen_plain || has_plain(s)) {
            seq!["plain"@]
        } else {
            Seq::<Seq<char>>::empty()
        }),
    decreases s.len(),
{
    let t = s.push(p);
    if s.len() == 0 {
        assert(t =~= seq![p]);
        assert(t.drop_first() =~= Seq::<PartView>::empty());
        assert(!has_html(s));
        assert(!has_plain(s));
        let marker: Seq<Seq<char>> = if is_html_part(p) && !seen_html {
            seq!["html"@]
        } else if is_plain_part(p) && !seen_plain {
            seq!["plain"@]
        } else {
            Seq::empty()
        };
        assert(formats_suffix(s, seen_html, seen_plain) == Seq::<Seq<char>>::empty());
        assert(formats_suffix(
            Seq::<PartView>::empty(),
            seen_html || is_html_part(p),
            seen_plain || is_plain_part(p),
        ) == Seq::<Seq<char>>::empty());
        assert(formats_suffix(t, seen_html, seen_plain) == marker + Seq::<Seq<char>>::empty());
        assert(marker + Seq::<Seq<char>>::empty() =~= marker);
        assert(Seq::<Seq<char>>::empty() + marker =~= marker);
    } else {
        let h = s[0];
        assert(t[0] == h);
        assert(t.drop_first() =~= s.drop_first().push(p));
        lemma_formats_suffix_push(
            s.drop_first(),
            p,
            seen_html || is_html_part(h),
            seen_plain || is_plain_part(h),
        );
        lemma_has_unfold(s);
        assert(formats_suffix(t, seen_html, seen_plain) == formats_suffix(
            s,
            seen_html,
            seen_plain,
        ) + (if is_html_part(p) && !(seen_html || has_html(s)) {
            seq!["html"@]
        } else if is_plain_part(p) && !(seen_plain || has_plain(s)) {
            seq!["plain"@]
        } else {
            Seq::<Seq<char>>::empty()
        })) by {
            assert(formats_suffix(t, seen_html, seen_plain) == (if is_html_part(h) && !seen_html {
                seq!["html"@]
            } else if is_plain_part(h) && !seen_plain {
                seq!["plain"@]
            } else {
                Seq::<Seq<char>>::empty()
            }) + formats_suffix(
                t.drop_first(),
                seen_html || is_html_part(h),
                seen_plain || is_plain_part(h),
            ));
        }
    }
}

} // verus!

