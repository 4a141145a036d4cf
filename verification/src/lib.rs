//! Incremental CBOR reading and writing on top of byte sources and sinks.
//!
//! The byte-level logic lives here: the read buffer that feeds a CBOR
//! decoder item by item, the decoding of array and map headers, the
//! decisions taken while reading arrays and maps, and the cursor that an
//! encoder writes into. Moving bytes to and from devices is left to the
//! caller, which hands the library what a source delivered and performs
//! the actions the library answers with.

pub use minicbor;

pub mod header;
pub mod reader;
pub mod writer;
