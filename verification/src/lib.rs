//! Tephra: positions, spans, source texts, lexing and parse errors for
//! hand-written parsers, with their behaviour stated and proved.
#![allow(unused_imports)]

pub mod position;
pub mod metrics;
pub mod span;
pub mod source;
pub mod error;
pub mod recover;
pub mod lexer;
pub mod result;
pub mod fmt;
pub mod message;
pub mod note;
pub mod paint;
pub mod highlight;
pub mod display;
pub mod render;
pub mod tracing_stub;
pub mod bracket;
pub mod combinator;
pub mod parse;

pub use position::Page;
pub use position::Pos;
pub use metrics::ColumnMetrics;
pub use metrics::LineEnding;
pub use span::ByteSpan;
pub use span::PageSpan;
pub use span::Span;
pub use source::SourceText;
pub use source::SourceTextRef;
pub use source::SourceTextOwned;
pub use source::IterColumns;
pub use span::SplitLines;
pub use recover::Recover;
pub use recover::recover_after;
pub use recover::recover_before;
pub use recover::recover_after_any;
pub use recover::recover_before_any;
pub use lexer::Lexer;
pub use lexer::Scanner;
pub use message::MessageType;
pub use note::Note;
pub use highlight::Highlight;
pub use display::CodeDisplay;
pub use display::SpanDisplay;
pub use result::Success;
pub use result::Spanned;
pub use result::Failure;
pub use result::ParseResult;
pub use result::ParseResultExt;
pub use error::ParseError;
