//! The decision logic of a two-pane file manager.

pub mod archive;
pub mod archive_ctl;
pub mod archive_laws;
pub mod debug_ctl;
pub mod debug_json;
pub mod debug_server;
pub mod dialog;
pub mod dnd;
pub mod file_item;
pub mod file_list;
pub mod geometry;
pub mod licenses;
pub mod operation;
pub mod outside;
pub mod sink;
pub mod place_laws;
pub mod selection_laws;
pub mod snapshot;
pub mod spinner;
pub mod status;
pub mod status_laws;
pub mod text;
pub mod text_laws;
pub mod unpacking;
pub mod vfs;
pub mod viewer;
pub mod viewer_laws;
pub mod winpath;
