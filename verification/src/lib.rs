//! Verified core of an OpenSHMEM-style partitioned global address space library.
//!
//! The library decides; its caller talks to the outside world. Processing elements (PEs) find
//! each other through PMIx, move bytes with UCX and synchronise with UCC. Every rule between those
//! calls stands here, with a contract: the symmetric heap, the addressing of peers, the encoding
//! of typed values, and, for each operation that takes several outside calls, a small machine
//! that is told what the last call returned and says what to do next.

pub mod bootstrap;
pub mod coll;
pub mod error;
pub mod heap_model;
pub mod init;
pub mod oob;
pub mod pod;
pub mod rma;
pub mod settings;
pub mod symheap;
