//! The decisions of a Wayland compositor: where windows go and which has the
//! keyboard, what a frame is made of, what a configuration means, how a display
//! is taken and given back.

pub mod agreement;
pub mod bindings;
pub mod chars;
pub mod chrome;
pub mod command;
pub mod conduct;
pub mod config;
pub mod cursor;
pub mod display;
pub mod document;
pub mod driver;
pub mod entry;
pub mod fields;
pub mod floating;
pub mod foreign_toplevel;
pub mod frame;
pub mod geometry;
pub mod gpublur;
pub mod identity;
pub mod layout;
pub mod number;
pub mod panel;
pub mod pixels;
pub mod probe;
pub mod session;
pub mod sort;
pub mod stage;
pub mod stage_server;
pub mod template;
pub mod text;
pub mod toplevel;
pub mod tty;
pub mod undo;
pub mod utils;
pub mod wallpaper;
pub mod workspace;
