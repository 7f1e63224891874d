//! A codec and query engine for the Source Map v3 format.
//!
//! The library decodes a JSON source map document into an in-memory token
//! stream, re-encodes that stream back to the wire format, stores the stream
//! compactly, answers reverse (generated position to original position)
//! lookups, and merges several source maps into one while renumbering
//! identifiers.

pub mod compressed_tokens;
pub mod concat_sourcemap_builder;
pub mod decode;
pub mod encode;
pub mod error;
pub mod outside;
pub mod roundtrip;
pub mod soa_tokens;
pub mod sourcemap;
pub mod sourcemap_builder;
pub mod thread_safe;
pub mod token;
pub mod vlq;

pub use compressed_tokens::{CompressedTokenIterator, CompressedTokens};
pub use concat_sourcemap_builder::ConcatSourceMapBuilder;
pub use decode::JSONSourceMap;
pub use error::Error;
pub use soa_tokens::{SoaTokenIterator, SoaTokens};
pub use sourcemap::{LineLookupTable, SourceMap, SourceViewToken};
pub use sourcemap_builder::SourceMapBuilder;
pub use thread_safe::{SharedSourceMap, ThreadSafeSourceMap};
pub use token::{Token, TokenChunk, Tokens, TokensIter};
