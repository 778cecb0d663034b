//! The role a format string plays.

use vstd::prelude::*;

verus! {

/// The log level of `defmt_parser`, declared with its five variants so that verified code
/// can name them.
#[verifier::external_type_specification]
pub struct ExLevel(defmt_parser::Level);

/// Specifies the origin of a format string.
#[derive(Debug, Clone, Copy, PartialEq, Eq, Structural)]
pub enum Tag {
    /// Built-in format string for primitive types.
    Prim,
    /// Format string generated from the structure of a type.
    Derived,
    /// Format string that describes a bitflags type.
    Bitflags,
    /// A user-defined format string from a `write!` invocation.
    Write,
    /// An interned string.
    Str,
    /// Defines the global timestamp format.
    Timestamp,
    /// A named constant that belongs to a bitflags type.
    BitflagsValue,
    /// Format string of a top-level print call.
    Println,
    /// Log statement of severity trace.
    Trace,
    /// Log statement of severity debug.
    Debug,
    /// Log statement of severity info.
    Info,
    /// Log statement of severity warn.
    Warn,
    /// Log statement of severity error.
    Error,
}

impl Tag {
    /// Whether the tag is one of the five severity tags.
    pub open spec fn is_severity(self) -> bool {
        self is Trace || self is Debug || self is Info || self is Warn || self is Error
    }

    /// The level of a severity tag; the other eight tags have none.
    pub open spec fn level(self) -> Option<defmt_parser::Level> {
        match self {
            Tag::Trace => Some(defmt_parser::Level::Trace),
            Tag::Debug => Some(defmt_parser::Level::Debug),
            Tag::Info => Some(defmt_parser::Level::Info),
            Tag::Warn => Some(defmt_parser::Level::Warn),
            Tag::Error => Some(defmt_parser::Level::Error),
            _ => None,
        }
    }

    /// Maps a severity tag to its level.
    pub fn to_level(&self) -> (level: Option<defmt_parser::Level>)
        ensures
            level == self.level(),
            level is Some <==> self.is_severity(),
    {
        match self {
            Tag::Trace => Some(defmt_parser::Level::Trace),
            Tag::Debug => Some(defmt_parser::Level::Debug),
            Tag::Info => Some(defmt_parser::Level::Info),
            Tag::Warn => Some(defmt_parser::Level::Warn),
            Tag::Error => Some(defmt_parser::Level::Error),
            _ => None,
        }
    }
}

} // verus!
