//! Verified core of a small file-backup tool: the progress state shared
//! between the user interface and the copy worker, the file list shown to the
//! user, and the decisions taken while listing, searching, sorting and
//! copying files.

pub mod enums;
pub mod file_opt;
pub mod list_view;
pub mod structs;
pub mod text;
