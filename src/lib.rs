//! A terminal text editor's drawing core: styled text lines, scrolling
//! cursors and a compositor that layers pane frames into one screen.

pub mod colour_string;
pub mod cursor;
pub mod window;
pub mod readonly;
pub mod status_message;
pub mod status_bar;
pub mod tab;
pub mod home;
pub mod command_palette;
pub mod file_explorer;
pub mod input;
pub mod syntax_highlighter;
pub mod editor;
