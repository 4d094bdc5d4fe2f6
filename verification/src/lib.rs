//! Decoder for the netpbm grayscale ("PGM") image formats.
//!
//! The library decodes a raw byte buffer holding a PGM image — ASCII (`P2`)
//! or binary (`P5`) — into an in-memory pixel grid. The header (magic number,
//! width, height, maximum sample value, `#`-led comments) is parsed by a
//! streaming tokenizer over a strictly forward-moving cursor; the pixel body
//! follows after a single whitespace delimiter, either as whitespace-separated
//! decimal samples or as raw bytes packed one or two per sample.

pub mod errors;
pub mod format;
pub mod image;
pub mod laws;
pub mod numbers;
pub mod parser;
pub mod tokenizer;
