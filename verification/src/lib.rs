//! Romanization of Chinese text: a walk over the characters of a text that
//! turns each character with a known reading into its pinyin and handles the
//! others by a configurable policy, producing either one joined string or an
//! array of tagged byte buffers.

pub mod buffer;
pub mod convert;
pub mod laws;
pub mod render;
pub mod segment;
pub mod table;
pub mod text;

pub use buffer::{free_array, free_pointer, PinyinArray, PinyinStr};
pub use convert::{to_convert, to_convert_array, to_convert_multi, to_pinyin, to_pinyin_array};
pub use render::{match_mode, Candidate, Forms, Mode};
pub use segment::{render_all, romanize, segment, Piece, Policy, Segmenter, Token, Walk};
pub use text::{collapse, join};
