//! Ingestion core of a local mail-catching service.
//!
//! The transducer in [`message`] turns a raw SMTP payload into a canonical
//! [`message::Message`] record; the adapter in [`adapter`] accumulates the
//! bytes of one transaction and runs the transducer when the transaction
//! ends. The MIME parsing itself is delegated to the `mailparse` crate
//! behind the boundary in [`mime`].

pub mod adapter;
pub mod message;
pub mod mime;
