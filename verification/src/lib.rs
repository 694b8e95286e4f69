//! A pixel canvas with accumulating alpha compositing, and a linear
//! undo/redo history over it.

pub mod brush;
pub mod export;
pub mod grid;
pub mod replay;
pub mod undo;
pub mod util;
pub mod zoom;
