//! The logic behind the windows.
pub mod application;
pub mod attachment;
pub mod bindings;
pub mod colors;
pub mod config;
pub mod connections;
pub mod control;
pub mod events;
pub mod fieldmap;
pub mod fields;
pub mod input;
pub mod keystroke;
pub mod lookup;
pub mod mouse;
pub mod notifications;
pub mod plane;
pub mod row;
pub mod sections;
pub mod selection;
pub mod settings;
pub mod shortcuts;
pub mod surface;
pub mod tree;
pub mod utf16;
pub mod window;
pub mod workspace;
