//! A compact logging transport for small devices.
//!
//! The device side serialises log calls into frames behind a fail-fast critical section
//! ([`guard`], [`frame`]); the host side holds the table that maps the index at the head of
//! each frame back to its format string ([`table`]) and splits a byte stream into frames
//! according to the table's encoding ([`stream`]).

pub mod bitflags;
pub mod encoding;
pub mod entry;
pub mod error;
pub mod frame;
pub mod guard;
pub mod rzcobs;
pub mod stream;
pub mod table;
pub mod tag;
pub mod version;

pub use bitflags::{BitflagsKey, BitflagsRegistry};
pub use encoding::Encoding;
pub use entry::{StringEntry, TableEntry};
pub use error::Error;
pub use frame::FrameEncoder;
pub use guard::Logger;
pub use stream::{Frame, StreamDecoder};
pub use table::Table;
pub use tag::Tag;
pub use version::DEFMT_VERSIONS;
