//! Decoder for the MAST binary serialization of a programming language's
//! abstract syntax tree.
//!
//! A MAST stream is a fixed 10-byte header (a 9-byte magic signature and a
//! version byte) followed by a stream of tagged nodes. The decoder validates
//! the header, reads primitive values (varints, strings, single Unicode
//! scalars, raw doubles) and dispatches on tag bytes, appending each finished
//! node to an append-only node table.

pub mod errors;
pub mod load_mast;
pub mod nodes;
pub mod text;
pub mod varint;

pub use errors::MastError;
pub use varint::UnsignedInt;
