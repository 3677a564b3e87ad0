//! A dotfile manager: classification of live paths into repository
//! namespaces, the manifest of tracked files, the link plan for each tracked
//! file, and the decisions of the synchronisation cycle.
pub mod args;
pub mod text;
pub mod paths;
pub mod dotfiles;
pub mod manifest;
pub mod link;
pub mod sync;
