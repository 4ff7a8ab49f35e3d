//! Core logic of the `rx` pixel editor: command history, pixel buffers,
//! view snapshots with undo/redo, brushes, key bindings, frame digests and
//! command parsing.

pub mod autocomplete;
pub mod brush;
pub mod cmd;
pub mod color;
pub mod commands;
pub mod completion;
pub mod duplicate;
pub mod event;
pub mod execution;
pub mod flood;
pub mod font;
pub mod gfx;
pub mod history;
pub mod image;
pub mod io;
pub mod keyboard;
pub mod mouse;
pub mod options;
pub mod palette;
pub mod parser;
pub mod pixels;
pub mod platform;
pub mod rect;
pub mod replay;
pub mod view;
pub mod session;
pub mod shape;
pub mod text;
pub mod timer;
pub mod update;
pub mod util;
