//! A small forensics toolkit for an undocumented binary game-data format:
//! a byte-pattern scanner that finds every offset where the bytes,
//! reinterpreted as an 8-, 16-, or 32-bit integer in either byte order,
//! equal the sought value, and a fixed-layout world-header parser.

pub mod aggregate;
pub mod cursor;
pub mod strider;
pub mod world;
