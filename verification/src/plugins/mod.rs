//! The built-in plugins and what plugins share.

pub mod builtin;
pub mod go;
pub mod helper_process;
pub mod runtime;
pub mod snapshot;
pub mod support;
pub mod typescript;
