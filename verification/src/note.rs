//! Notes attached to displayed source text.
use vstd::prelude::*;
use crate::message::MessageType;

verus! {

/// A note which can be attached to a `SpanDisplay` or `CodeDisplay`.
#[derive(Debug, Clone)]
pub struct Note {
    /// The message type for the note.
    pub note_type: MessageType,
    /// The note to display.
    pub note: String,
}

impl Note {
    /// Constructs a new note of the given type.
    pub fn new(note_type: MessageType, note: String) -> (r: Note)
        ensures
            r.note_type == note_type,
            r.note == note,
    {
        Note { note_type, note }
    }
}

} // verus!
