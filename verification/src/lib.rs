//! A personal activity/time tracker: an in-memory store of logged work
//! activities keyed by calendar day, with undo/redo history and a
//! date-ordered selection cursor.  Persistence and terminal rendering live
//! outside this crate; it only ever works on plain values.

pub mod activity;
pub mod activity_vec;
pub mod app;
pub mod combo_buffer;
pub mod config;
pub mod datetime;
pub mod editor;
pub mod history;
pub mod laws;
pub mod selected_vec;
pub mod sorted_vec;
pub mod state;
pub mod text;
