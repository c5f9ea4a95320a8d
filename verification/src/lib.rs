//! Forward traversal of byte slices: UTF-8 boundaries, normalized line
//! endings, and line/column lookup for byte offsets.

pub mod characters;
pub mod cursor;
pub mod encoding;
pub mod error;
pub mod integers;
pub mod location;
pub mod numeric;
pub mod position;

pub use cursor::Cursor;
pub use error::Error;
pub use location::get_lines_and_columns;
pub use numeric::ByteOrder;
pub use position::Position;
