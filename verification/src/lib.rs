//! Binary wire codec for Kafka-style request and response messages.
//!
//! The crate is layered from the bytes up.  [`enc`] holds the variable-length
//! integers and [`wire`] the fixed-width ones; [`uuid`] spells UUIDs.
//! [`reader`] and [`writer`] state what every source and sink of bytes
//! offers; [`parsing`] and [`buffer`] are the sources and sinks held in
//! memory.  [`readable`], [`writable`] and [`messages`] build message schemas
//! on top of them, and [`frame`] wraps what is sent.  [`laws`] proves that
//! what is written is read back.
//!
//! Every operation carries a contract over a mathematical model of the byte
//! layout.
pub mod buffer;
pub mod enc;
pub mod frame;
pub mod laws;
pub mod messages;
pub mod parsing;
pub mod readable;
pub mod reader;
pub mod uuid;
pub mod wire;
pub mod writable;
pub mod writer;
