//! The ingestion adapter: owns the accumulation buffer of one SMTP
//! transaction and runs the transducer when the transaction ends.

use vstd::prelude::*;

use crate::message::{message_of, Message, TransduceError};
use crate::mime::{doc_of, is_utc_stamp};

verus! {

/// Adapter-local state of one session: the bytes of the transaction
/// accumulated so far. Its view is the buffered byte sequence.
#[derive(Clone)]
pub struct IngestionAdapter {
    buffer: Vec<u8>,
}

impl View for IngestionAdapter {
    type V = Seq<u8>;

    closed spec fn view(&self) -> Seq<u8> {
        self.buffer@
    }
}

impl IngestionAdapter {
    /// A fresh adapter with an empty buffer.
    pub fn new() -> (a: Self)
        ensures
            a@ == Seq::<u8>::empty(),
    {
        IngestionAdapter { buffer: Vec::new() }
    }

    /// Append one chunk to the transaction's buffer; chunk arrival order
    /// defines the final byte order.
    pub fn on_data(&mut self, chunk: &[u8])
        ensures
            final(self)@ == old(self)@ + chunk@,
    {
        self.buffer.extend_from_slice(chunk);
    }

    /// End the transaction: run the transducer on the accumulated bytes
    /// and reset the buffer, whatever the outcome. The caller hands an
    /// `Ok` record to the storage collaborator and acknowledges the
    /// session; an `Err` becomes a per-transaction rejection.
    pub fn on_data_end(&mut self) -> (r: Result<Message, TransduceError>)
        ensures
            final(self)@ == Seq::<u8>::empty(),
            r is Ok <==> doc_of(old(self)@) is Some,
            r matches Ok(m) ==> m@.created_at is Some && is_utc_stamp(m@.created_at->Some_0)
                && m@ == message_of(doc_of(old(self)@)->Some_0, old(self)@, m@.created_at->Some_0),
            r matches Err(e) ==> e == TransduceError::MalformedInput,
    {
        let r = Message::parse(&self.buffer);
        self.buffer.clear();
        r
    }
}

} // verus!
