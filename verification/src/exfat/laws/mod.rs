//! What holds of the file system as a whole.
//!
//! In the laws on directories, `o` is the state in which something is begun, and `s` is the
//! state in which everything in the directory is open: see `dir::dir_opens`.

pub mod attr;
pub mod beside;
pub mod bitmap;
pub mod cases;
pub mod chain;
pub mod counting;
pub mod create;
pub mod dir;
pub mod direct;
pub mod entry;
pub mod fat;
pub mod fault;
pub mod fetch;
pub mod file;
pub mod format;
pub mod layout;
pub mod listing;
pub mod mount;
pub mod open;
pub mod page;
pub mod reading;
pub mod refuse;
pub mod remove;
pub mod readable;
pub mod rename;
pub mod replace;
pub mod stored;
pub mod sync;
pub mod undo;
pub mod write;
