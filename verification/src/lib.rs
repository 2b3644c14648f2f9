//! The in-memory core of a terminal text editor: a line buffer, a cursor
//! with its viewport, a syntax highlighter and a phrase search.
//!
//! Text is held as bytes and every offset is a byte offset. The buffer
//! reads no keyboard, draws on no screen and opens no file: it takes keys
//! and texts as values and gives back the rows to store and the commands
//! to draw.

pub mod bytes;
pub mod cursor;
pub mod highlight;
pub mod input;
pub mod line;
pub mod search;
pub mod storage;
pub mod syntax;
pub mod text;

pub use cursor::Cursor;
pub use cursor::Direction;
pub use highlight::HighlightType;
pub use line::Line;
pub use search::SearchData;
pub use syntax::RustSyntax;
pub use text::Text;
