//! The coordination rules of a role runtime for agent sessions: declared channels and their
//! state machines, the consolidator's message shapes, the addressee derivation behind an id-free
//! reply, the return path a requester is told about, and the working-copy anchor a handover
//! records.
pub mod text;
pub mod order;
pub mod boundary;
pub mod role;
pub mod channel;
pub mod consolidate;
pub mod validate;
pub mod reach;
pub mod review;
pub mod error;
pub mod quorum;
pub mod addressees;
pub mod awaiting;
pub mod anchor;
pub mod report;
pub mod status;
pub mod tick;
pub mod stream;
pub mod withdraw;
pub mod resume;
pub mod refs;
