//! Lossless decoding of H.264 Annex-B byte streams into trees of named
//! syntax elements, and encoding of such trees back into the exact bytes.
//!
//! A stream is split at its start codes into NAL units. Each unit is read
//! field by field as its syntax prescribes, into a tree of fields, nodes and
//! payloads; what is not parsed (slice data, VUI parameters, units of unknown
//! type) is kept as a payload. Trees are written as text, one row for each
//! element, and read back from it. The same description of the syntax drives
//! a reader and a writer, so that encoding undoes decoding.
//!
//! The modules, from the bits up:
//!
//! - [`bits`], [`codec`]: bits of bytes and numbers; the five field
//!   encodings as functions between values and bits.
//! - [`reader`], [`writer`]: the two directions over bytes.
//! - [`tree`], [`printer`], [`text`], [`numeral`]: the syntax tree and its
//!   text form.
//! - [`machine`], [`processor`]: what a reader and a writer have in common,
//!   as a state with steps, and as a trait.
//! - [`state`], [`grammar`], [`h264_parser`]: the H.264 syntax structures,
//!   as functions on walks and as procedures over a processor; splitting a
//!   stream, [`parse_h264`] and [`serialize_h264`], and beside each the
//!   `try_` function that takes any input and hands back a failure.
//! - [`stream`]: what decoding and encoding a whole stream mean.
//! - [`codec_laws`], [`machine_laws`], [`stream_laws`], [`text_laws`],
//!   [`grammar_laws`], [`text_roundtrip`], [`roundtrip`],
//!   [`roundtrip_syntax`], [`roundtrip_stream`]: what is proved of all this:
//!   that reading undoes writing, field by field and text by text, and that
//!   encoding a decoded stream gives back the stream.

pub mod bits;
pub mod codec;
pub mod codec_laws;
pub mod error;
pub mod grammar;
pub mod grammar_laws;
pub mod h264_parser;
pub mod machine;
pub mod machine_laws;
pub mod numeral;
pub mod printer;
pub mod processor;
pub mod reader;
pub mod roundtrip;
pub mod roundtrip_stream;
pub mod roundtrip_syntax;
pub mod state;
pub mod stream;
pub mod stream_laws;
pub mod text;
pub mod text_laws;
pub mod text_roundtrip;
pub mod tree;
pub mod writer;

pub use crate::codec::FieldType;
pub use crate::error::{ErrorKind, SyntaxError};
pub use crate::h264_parser::{
    parse_h264, serialize_h264, tokenize_h264_bitstream, try_parse_h264, try_serialize_h264,
};
pub use crate::processor::BitstreamProcessor;
pub use crate::reader::BitstreamReader;
pub use crate::state::{int_to_slice_type, H264State, SliceType};
pub use crate::text::{syntax_elements_from_string, try_syntax_elements_from_string};
pub use crate::tree::{SyntaxElement, SyntaxField, SyntaxNode, SyntaxPayload};
pub use crate::writer::BitstreamWriter;
