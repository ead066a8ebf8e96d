//! Terminal, workspace and user interface logic of the Water terminal.
//!
//! The crate holds what can be decided from plain values: the ordered stream
//! of terminal events and its bounded replay history, the screen snapshot and
//! its selection, the inline graphics protocols, the worker's byte scanners
//! and the rules of the windows around them.  Threads, sockets, pseudo
//! terminals and drawing belong to the program that links it.
pub mod decimal;
pub mod idmap;
pub mod ids;
pub mod num;
pub mod paths;
mod shared;
pub mod terminal;
pub mod text;
pub mod ui;
pub mod workspace;
