//! Path permissions and a registry of filesystem watches: which paths a
//! caller may touch, and what the changes under a watched path mean.

pub mod directory;
pub mod file_watcher;
pub mod filesystem;
pub mod lexical;
pub mod lexical_laws;
pub mod path_set;
pub mod platform;
pub mod security;
pub mod text;
