use mailtutan_lib::adapter::IngestionAdapter;
use mailtutan_lib::message::TransduceError;

#[test]
fn chunks_accumulate_in_order() {
    let mut adapter = IngestionAdapter::new();
    adapter.on_data(b"From: a@x.com\nTo: b@y.com\n");
    adapter.on_data(b"Subject: hi\n\n");
    adapter.on_data(b"body\n");

    let message = adapter.on_data_end().unwrap();
    assert_eq!(message.sender, "a@x.com");
    assert_eq!(message.recipients, vec!["b@y.com".to_string()]);
    assert_eq!(message.subject, "hi");
    assert_eq!(
        message.source,
        b"From: a@x.com\nTo: b@y.com\nSubject: hi\n\nbody\n".to_vec()
    );
}

#[test]
fn buffer_resets_between_transactions() {
    let mut adapter = IngestionAdapter::new();
    adapter.on_data(b"Subject: first\n\none\n");
    let first = adapter.on_data_end().unwrap();
    assert_eq!(first.subject, "first");

    adapter.on_data(b"Subject: second\n\ntwo\n");
    let second = adapter.on_data_end().unwrap();
    assert_eq!(second.subject, "second");
    assert_eq!(second.source, b"Subject: second\n\ntwo\n".to_vec());
}

#[test]
fn rejection_is_per_transaction() {
    let mut adapter = IngestionAdapter::new();
    adapter.on_data(b" overhanging first line\n\nbody\n");
    let outcome = adapter.on_data_end();
    assert!(matches!(outcome, Err(TransduceError::MalformedInput)));

    adapter.on_data(b"Subject: fine\n\nbody\n");
    let message = adapter.on_data_end().unwrap();
    assert_eq!(message.subject, "fine");
}
