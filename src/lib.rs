//! Text buffer and cursor navigation engine of a small markdown-like
//! document editor: a mutable document, its classified lines, conversion
//! between editor positions and raw offsets, soft wrapping, navigation and
//! editing commands.

pub mod buffer;
pub mod content;
pub mod cursor;
pub mod editor;
pub mod text;

pub use buffer::{Buffer, SaveError};
pub use content::{Content, Line, LineType};
pub use editor::Editor;
pub use cursor::{Cursor, EditLocation, EditorPosition, Selection, SelectionDirection};
pub use text::{RawText, WrapError, WrappedText, CHARACTER_COUNT_PER_LINE};
