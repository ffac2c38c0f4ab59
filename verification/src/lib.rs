//! A library for newline character converting.
//!
//! Converts DOS-style line endings (`\r\n`) to UNIX-style (`\n`) and back,
//! either on raw byte buffers of a fixed code-unit width (see `Converter`)
//! or on already-decoded text (lazily: no allocation is performed if the
//! input is already in the requested format).

mod converter;
mod errors;
mod model;
mod text;
mod utils;

pub use converter::convert;
pub use converter::spec_convert;
pub use converter::Converter;
pub use errors::CharSizeZero;
pub use errors::ConversionError;
pub use errors::WrongInputLen;
pub use model::bytes_of;
pub use model::contains_pair;
pub use model::contains_triple;
pub use model::dos2unix_seq;
pub use model::lemma_dos2unix_no_crlf;
pub use model::lemma_dos2unix_noop;
pub use model::lemma_round_trip;
pub use model::lemma_round_trip_dos;
pub use model::lemma_unix2dos_noop;
pub use model::lemma_unix2dos_pairs;
pub use model::lf_paired;
pub use model::units_of;
pub use model::unix2dos_seq;
pub use text::dos2unix;
pub use text::unix2dos;
pub use text::AsRefStrExt;
pub use utils::build_char;
pub use utils::char_pattern;
pub use utils::CR;
pub use utils::LF;
pub use utils::ByteOrder;
pub use utils::Conversion;
