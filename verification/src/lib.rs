//! A spreadsheet viewer and editor core: tables read from CSV or Excel
//! files, a display order over their rows, and the editing, searching,
//! sorting, filtering and undo logic that a terminal front end drives.

pub mod text;
pub mod data;
pub mod app;
pub mod pattern;
pub mod matching;
pub mod sorting;
pub mod layout;
