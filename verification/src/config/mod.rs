//! Dynamic configuration: validation, application and reload.

pub mod applier;
pub mod loader;
pub mod validator;
pub mod watcher;

pub use applier::{apply, ApplyReport};
pub use validator::validate;
