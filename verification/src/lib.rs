//! Columnar binary encoding of HTML parse events.
//!
//! A stream of typed parse events (start-tag, end-tag, text run, doctype,
//! end-of-stream) is folded into three packed string tables and two numeric
//! edge lists, then serialized as one flat little-endian byte buffer with a
//! nine-word header of cumulative section offsets.

pub mod encoder;
pub mod format;
pub mod table;
pub mod token;
