//! Streaming parser for ASC X12 EDI documents: delimiter detection from the
//! leading `ISA` segment, a byte-level segment tokenizer and an envelope
//! interpreter that reports interchange, functional group and transaction
//! boundaries to a consumer.
use vstd::prelude::*;

pub mod source;
pub mod segments;
pub mod delimiters;
pub mod parsers;
pub mod default_parser;

pub use crate::source::ByteSource;
pub use crate::source::MemorySource;
pub use crate::source::ReadOutcome;
pub use crate::delimiters::detect_delimiters;
pub use crate::delimiters::detect_delimiters_in;
pub use crate::delimiters::DelimiterResult;
pub use crate::delimiters::Delimiters;
pub use crate::delimiters::DetectError;
pub use crate::segments::create_segment_iterator;
pub use crate::segments::step;
pub use crate::segments::ParserConfig;
pub use crate::segments::ParserIterator;
pub use crate::segments::ParserState;
pub use crate::segments::PState;
pub use crate::segments::Segment;
pub use crate::parsers::create_edi_streamer;
pub use crate::parsers::execute_streaming_parser;
pub use crate::parsers::StreamParser;
pub use crate::default_parser::DefaultParser;

verus! {

} // verus!
