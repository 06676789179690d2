//! The logic of a modal terminal: prompt editing with an undo shadow, Vim-style
//! navigation over a grid of cells and its scrollback, search, selection, pages
//! over panes, and the dispatch that ties them together.
//!
//! Nothing here performs I/O. What has to reach a shell, a clipboard or a
//! window is left in the state as plain values for the caller to carry out.

pub mod app;
pub mod events;
pub mod file_search;
pub mod grid;
pub mod history;
pub mod input;
pub mod jobs;
pub mod keys;
pub mod line_editor;
pub mod listings;
pub mod navigation;
pub mod objects;
pub mod page_moves;
pub mod pages;
pub mod palette;
pub mod patterns;
pub mod pointer;
pub mod prompt_edit;
pub mod queries;
pub mod requests;
pub mod session;
pub mod tab_moves;
pub mod tabs;
pub mod text;
pub mod text_objects;
pub mod words;
