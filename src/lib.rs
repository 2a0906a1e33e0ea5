//! Reader, writer and renderer for MIF textile design files.
//!
//! A design file holds a versioned header, a list of colourway variants
//! with their colour channels, and run-length coded channel bitmaps. The
//! modules below parse and write those sections and composite a variant's
//! channels into a preview raster.
//!
//! - `cursor`: typed little-endian reads and writes over a byte store;
//! - `text`: the decoding of stored strings;
//! - `packbits`: the scanline run-length code;
//! - `color`: colour records and their display colour;
//! - `tags`: the two extension tag tables;
//! - `strings`: counted lists of strings;
//! - `header`: the design header in its four revisions;
//! - `channel`: stored channel bitmaps and their scanlines;
//! - `variant`: colourway records;
//! - `compose`: layering decoded channels into a raster;
//! - `design`: a whole design file.

pub mod error;
pub mod cursor;
pub mod text;
pub mod packbits;
pub mod color;
pub mod tags;
pub mod strings;
pub mod header;
pub mod channel;
pub mod variant;
pub mod compose;
pub mod design;
