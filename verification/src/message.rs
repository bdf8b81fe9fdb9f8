//! Message types: how a message, note or highlight is labelled and marked.
use vstd::prelude::*;

verus! {

/// A `CodeDisplay`, `Note`, or `Highlight` message type, which determines
/// the color and format of the message.
#[derive(Debug, Clone, Copy, PartialEq, Eq, Structural)]
pub enum MessageType {
    /// An informational message.
    Info,
    /// An error message.
    Error,
    /// A warning message.
    Warning,
    /// A message providing additional info.
    Note,
    /// A message to help in correcting an error or warning.
    Help,
}

/// The colors that messages are painted in.
#[derive(Debug, Clone, Copy, PartialEq, Eq, Structural)]
pub enum MessageColor {
    /// Bright white.
    BrightWhite,
    /// Bright red.
    BrightRed,
    /// Bright yellow.
    BrightYellow,
    /// Bright blue.
    BrightBlue,
    /// Bright green.
    BrightGreen,
}

/// The label of a message type.
pub open spec fn label_text(t: MessageType) -> Seq<char> {
    match t {
        MessageType::Info => "info"@,
        MessageType::Error => "error"@,
        MessageType::Warning => "warning"@,
        MessageType::Note => "note"@,
        MessageType::Help => "help"@,
    }
}

/// The underline character of a message type.
pub open spec fn underline_char(t: MessageType) -> char {
    match t {
        MessageType::Error | MessageType::Warning => '^',
        MessageType::Info | MessageType::Note => '-',
        MessageType::Help => '~',
    }
}

impl MessageType {
    /// Returns the color associated with the message type.
    pub fn color(self) -> (r: MessageColor)
        ensures
            r == match self {
                MessageType::Info => MessageColor::BrightWhite,
                MessageType::Error => MessageColor::BrightRed,
                MessageType::Warning => MessageColor::BrightYellow,
                MessageType::Note => MessageColor::BrightBlue,
                MessageType::Help => MessageColor::BrightGreen,
            },
    {
        match self {
            MessageType::Info => MessageColor::BrightWhite,
            MessageType::Error => MessageColor::BrightRed,
            MessageType::Warning => MessageColor::BrightYellow,
            MessageType::Note => MessageColor::BrightBlue,
            MessageType::Help => MessageColor::BrightGreen,
        }
    }

    /// Returns the underline associated with the message type.
    pub fn underline(self) -> (r: &'static str)
        ensures
            r@ == seq![underline_char(self)],
    {
        match self {
            MessageType::Error | MessageType::Warning => {
                proof {
                    reveal_strlit("^");
                }
                assert("^"@ =~= seq!['^']);
                "^"
            },
            MessageType::Info | MessageType::Note => {
                proof {
                    reveal_strlit("-");
                }
                assert("-"@ =~= seq!['-']);
                "-"
            },
            MessageType::Help => {
                proof {
                    reveal_strlit("~");
                }
                assert("~"@ =~= seq!['~']);
                "~"
            },
        }
    }

    /// Returns the underline character of the message type.
    pub fn underline_mark(self) -> (r: char)
        ensures
            r == underline_char(self),
    {
        match self {
            MessageType::Error | MessageType::Warning => '^',
            MessageType::Info | MessageType::Note => '-',
            MessageType::Help => '~',
        }
    }

    /// Returns the label of the message type.
    pub fn label(self) -> (r: &'static str)
        ensures
            r@ == label_text(self),
    {
        match self {
            MessageType::Info => "info",
            MessageType::Error => "error",
            MessageType::Warning => "warning",
            MessageType::Note => "note",
            MessageType::Help => "help",
        }
    }
}

} // verus!
