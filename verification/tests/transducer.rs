use mailtutan_lib::message::{Message, TransduceError};

#[test]
fn test_subject() {
    let data = "From: Private Person <me@fromdomain.com>\nTo: A Test User <test@todomain.com>\nSubject: SMTP e-mail test\n\nThis is a test e-mail message.\n"
        .as_bytes()
        .to_vec();

    let message = Message::parse(&data).unwrap();
    assert_eq!(message.subject, "SMTP e-mail test");
}

#[test]
fn test_felan() {
    let data = "Subject: This is a test email\nContent-Type: multipart/alternative; boundary=foobar\nDate: Sun, 02 Oct 2016 07:06:22 -0700 (PDT)\n\n--foobar\nContent-Type: text/plain; charset=utf-8\nContent-Transfer-Encoding: quoted-printable\n\nThis is the plaintext version, in utf-8. Proof by Euro: =E2=82=AC\n--foobar\nContent-Type: text/html\nContent-Transfer-Encoding: base64\n\nPGh0bWw+PGJvZHk+VGhpcyBpcyB0aGUgPGI+SFRNTDwvYj4gdmVyc2lvbiwgaW4g \ndXMtYXNjaWkuIFByb29mIGJ5IEV1cm86ICZldXJvOzwvYm9keT48L2h0bWw+Cg== \n--foobar--\nAfter the final boundary stuff gets ignored.\n"
        .as_bytes()
        .to_vec();

    let message = Message::parse(&data).unwrap();
    assert_eq!(message.subject, "This is a test email");
}

#[test]
fn test_subject_is_not_found() {
    let data = "Content-Type: multipart/alternative; boundary=foobar\nDate: Sun, 02 Oct 2016 07:06:22 -0700 (PDT)\n\n--foobar\nContent-Type: text/plain; charset=utf-8\nContent-Transfer-Encoding: quoted-printable\n\nThis is the plaintext version, in utf-8. Proof by Euro: =E2=82=AC\n--foobar\nContent-Type: text/html\nContent-Transfer-Encoding: base64\n\nPGh0bWw+PGJvZHk+VGhpcyBpcyB0aGUgPGI+SFRNTDwvYj4gdmVyc2lvbiwgaW4g \ndXMtYXNjaWkuIFByb29mIGJ5IEV1cm86ICZldXJvOzwvYm9keT48L2h0bWw+Cg== \n--foobar--\nAfter the final boundary stuff gets ignored.\n"
        .as_bytes()
        .to_vec();

    let message = Message::parse(&data).unwrap();
    assert_eq!(message.subject, "");
}

#[test]
fn single_part_plain_message() {
    let data = "From: a@x.com\nTo: b@y.com\nSubject: hi\n\nbody\n"
        .as_bytes()
        .to_vec();

    let message = Message::parse(&data).unwrap();
    assert_eq!(message.sender, "a@x.com");
    assert_eq!(message.recipients, vec!["b@y.com".to_string()]);
    assert_eq!(message.subject, "hi");
    // the message declares no Content-Type, so its single part is neither
    // html nor plain: only the source marker remains
    assert_eq!(message.formats, vec!["source".to_string()]);
    assert!(message.plain.is_none());
    assert!(message.attachments.is_empty());
    assert!(message.id.is_none());
    assert!(message.created_at.is_some());
    assert_eq!(message.source, data);
}

#[test]
fn single_part_with_declared_plain_type() {
    let data = "From: a@x.com\nTo: b@y.com\nSubject: hi\nContent-Type: text/plain\n\nbody\n"
        .as_bytes()
        .to_vec();

    let message = Message::parse(&data).unwrap();
    assert_eq!(
        message.formats,
        vec!["source".to_string(), "plain".to_string()]
    );
    assert_eq!(message.plain.as_deref(), Some("body\n"));
}

#[test]
fn created_at_is_timezone_qualified_utc() {
    let data = "Subject: when\n\nbody\n".as_bytes().to_vec();

    let message = Message::parse(&data).unwrap();
    let stamp = message.created_at.unwrap();
    assert!(stamp.len() >= 25);
    assert!(stamp.ends_with("+00:00"));
}

#[test]
fn each_to_header_is_one_recipient() {
    let data = "From: sender@x.com\nTo: one@y.com\nTo: two@z.com\nSubject: s\n\nbody\n"
        .as_bytes()
        .to_vec();

    let message = Message::parse(&data).unwrap();
    assert_eq!(
        message.recipients,
        vec!["one@y.com".to_string(), "two@z.com".to_string()]
    );
}

#[test]
fn missing_from_is_empty_sender() {
    let data = "Subject: s\n\nbody\n".as_bytes().to_vec();

    let message = Message::parse(&data).unwrap();
    assert_eq!(message.sender, "");
    assert!(message.recipients.is_empty());
}

#[test]
fn formats_follow_encounter_order() {
    let data = "Subject: order\nContent-Type: multipart/alternative; boundary=foobar\n\n--foobar\nContent-Type: text/plain; charset=utf-8\n\nplain body\n--foobar\nContent-Type: text/html\n\n<p>html body</p>\n--foobar--\n"
        .as_bytes()
        .to_vec();

    let message = Message::parse(&data).unwrap();
    assert_eq!(
        message.formats,
        vec![
            "source".to_string(),
            "plain".to_string(),
            "html".to_string()
        ]
    );
    assert_eq!(message.plain.as_deref(), Some("plain body"));
    assert_eq!(message.html.as_deref(), Some("<p>html body</p>"));
}

#[test]
fn duplicate_parts_keep_one_marker_last_body_wins() {
    let data = "Subject: dup\nContent-Type: multipart/alternative; boundary=foobar\n\n--foobar\nContent-Type: text/plain\n\nfirst\n--foobar\nContent-Type: text/plain\n\nsecond\n--foobar--\n"
        .as_bytes()
        .to_vec();

    let message = Message::parse(&data).unwrap();
    assert_eq!(
        message.formats,
        vec!["source".to_string(), "plain".to_string()]
    );
    assert_eq!(message.plain.as_deref(), Some("second"));
}

#[test]
fn attachment_with_filename_and_cid() {
    let data = "Subject: att\nContent-Type: multipart/mixed; boundary=foobar\n\n--foobar\nContent-Type: application/pdf\nContent-Disposition: attachment; filename=\"doc.pdf\"\nContent-ID: <cid123>\n\nPDFDATA\n--foobar--\n"
        .as_bytes()
        .to_vec();

    let message = Message::parse(&data).unwrap();
    assert_eq!(message.attachments.len(), 1);
    assert_eq!(message.attachments[0].filename, "doc.pdf");
    assert_eq!(message.attachments[0].file_type, "application/pdf");
    assert_eq!(message.attachments[0].cid, "<cid123>");
    assert_eq!(message.attachments[0].body, b"PDFDATA".to_vec());
    assert_eq!(message.formats, vec!["source".to_string()]);
}

#[test]
fn attachment_without_filename_or_cid_gets_empty_defaults() {
    let data = "Subject: att\nContent-Type: multipart/mixed; boundary=foobar\n\n--foobar\nContent-Type: application/octet-stream\nContent-Disposition: attachment\n\nDATA\n--foobar--\n"
        .as_bytes()
        .to_vec();

    let message = Message::parse(&data).unwrap();
    assert_eq!(message.attachments.len(), 1);
    assert_eq!(message.attachments[0].filename, "");
    assert_eq!(message.attachments[0].cid, "");
}

#[test]
fn inline_image_without_disposition_is_skipped() {
    let data = "Subject: img\nContent-Type: multipart/mixed; boundary=foobar\n\n--foobar\nContent-Type: image/png\n\nPNGDATA\n--foobar--\n"
        .as_bytes()
        .to_vec();

    let message = Message::parse(&data).unwrap();
    assert!(message.attachments.is_empty());
    assert_eq!(message.formats, vec!["source".to_string()]);
    assert!(message.html.is_none());
    assert!(message.plain.is_none());
}

#[test]
fn malformed_input_is_rejected() {
    let data = " overhanging first line\n\nbody\n".as_bytes().to_vec();

    let result = Message::parse(&data);
    assert!(matches!(result, Err(TransduceError::MalformedInput)));
}

#[test]
fn same_bytes_parse_to_identical_records_except_timestamp() {
    let data = "From: a@x.com\nTo: b@y.com\nSubject: twice\nContent-Type: multipart/alternative; boundary=foobar\n\n--foobar\nContent-Type: text/plain\n\nbody\n--foobar--\n"
        .as_bytes()
        .to_vec();

    let first = Message::parse(&data).unwrap();
    let second = Message::parse(&data).unwrap();
    assert_eq!(first.id, second.id);
    assert_eq!(first.sender, second.sender);
    assert_eq!(first.recipients, second.recipients);
    assert_eq!(first.subject, second.subject);
    assert_eq!(first.source, second.source);
    assert_eq!(first.formats, second.formats);
    assert_eq!(first.html, second.html);
    assert_eq!(first.plain, second.plain);
    assert_eq!(first.attachments.len(), second.attachments.len());
    assert!(first.created_at.is_some());
    assert!(second.created_at.is_some());
}
