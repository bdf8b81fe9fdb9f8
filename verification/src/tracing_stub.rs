//! Stand-ins for the tracing spans and levels used to instrument parsing;
//! they record nothing.
use vstd::prelude::*;

verus! {

/// The verbosity level of a tracing span or event.
#[derive(Debug, Clone, Copy, PartialEq, Eq, PartialOrd, Ord, Structural)]
pub struct Level(pub LevelInner);

/// The levels, from the most verbose.
#[derive(Debug, Clone, Copy, PartialEq, Eq, PartialOrd, Ord, Structural)]
pub enum LevelInner {
    /// The most verbose level.
    Trace,
    /// The debugging level.
    Debug,
    /// The informational level.
    Info,
    /// The warning level.
    Warn,
    /// The error level.
    Error,
}

impl Level {
    /// The trace level.
    pub fn trace() -> (r: Level)
        ensures
            r == Level(LevelInner::Trace),
    {
        Level(LevelInner::Trace)
    }

    /// The debug level.
    pub fn debug() -> (r: Level)
        ensures
            r == Level(LevelInner::Debug),
    {
        Level(LevelInner::Debug)
    }

    /// The info level.
    pub fn info() -> (r: Level)
        ensures
            r == Level(LevelInner::Info),
    {
        Level(LevelInner::Info)
    }

    /// The warn level.
    pub fn warn() -> (r: Level)
        ensures
            r == Level(LevelInner::Warn),
    {
        Level(LevelInner::Warn)
    }

    /// The error level.
    pub fn error() -> (r: Level)
        ensures
            r == Level(LevelInner::Error),
    {
        Level(LevelInner::Error)
    }
}

/// A tracing span that records nothing.
#[derive(Debug, Clone, Copy, PartialEq, Eq, Structural)]
pub struct Span;

impl Span {
    /// Returns the span, entered.
    pub fn entered(&self) -> (r: Span)
        ensures
            r == *self,
    {
        *self
    }

    /// Enters the span; nothing is recorded.
    pub fn enter(&self) {
    }

    /// Exits the span; nothing is recorded.
    pub fn exit(&self) {
    }
}

} // verus!
