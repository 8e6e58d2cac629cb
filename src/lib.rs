//! Editing and rendering core of a terminal text editor.

pub mod unicode;
pub mod document;
pub mod editor;
pub mod terminal;
pub mod ui;
pub mod widgets;
pub mod widgets_impl;
pub mod frame;
