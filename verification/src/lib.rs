//! A QR-code encoding and export library.
//!
//! The encoder turns a byte or text payload into a self-contained SVG
//! document showing the QR symbol, with a fixed, documented configuration:
//! symbol version 1, byte mode, error-correction level M, mask pattern 0.
//! Payloads beyond the capacity of that configuration are rejected with an
//! error rather than truncated.
//!
//! File export is plain I/O and lives outside this library; the library
//! provides the error type that an exporter surfaces.

pub mod error;
pub mod gf;
pub mod codewords;
pub mod grid;
pub mod svg;
pub mod encoder;

pub use error::QrError;
pub use encoder::{encode_bytes_to_svg, encode_to_svg, generate_qr_code};
