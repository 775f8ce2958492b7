//! Platform-neutral application shortcuts, with a desktop-entry text codec and
//! the decision logic of a shell-link codec.
pub mod shortcut_files;
pub mod text;
