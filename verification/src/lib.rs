//! Hex dump of a span of physical memory: request validation and
//! row formatting, with the memory mapping and terminal output kept
//! outside the library.

pub mod hex;
pub mod numeral;
pub mod render;
pub mod request;
pub mod rows;

pub use numeral::parse_autobase;
pub use render::dump_rows;
pub use render::format_rows;
pub use render::is_benign_sentinel;
pub use render::view_words;
pub use render::RowLine;
pub use render::WordCell;
pub use request::DumpError;
pub use request::Opt;
pub use request::Requirements;
