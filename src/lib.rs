//! A pull-based in-memory task scheduler, with the small helpers that a plugin
//! host loads beside it.

pub mod moment;
pub mod reader_plugin;
pub mod scheduler;
pub mod text;
pub mod time_spec;
