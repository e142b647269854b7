//! Editing core of a keyboard-driven editor for delimited tables: cell
//! coordinates, rectangles, a sparse grid of text cells, bounded undo and
//! redo, viewport scrolling and the address-jump grammar.

pub mod location;
pub mod rect;
pub mod table;
pub mod buffer;
pub mod codec;
pub mod console;
pub mod digest;
pub mod history;
pub mod jump;
pub mod label;
pub mod undo;
