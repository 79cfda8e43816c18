//! The decision logic behind the CLI Manager desktop commands: building and
//! checking SSH invocations, reading their output, scheduling resource
//! sampling and resolving version information.
pub mod text;
pub mod version;
pub mod quoting;
pub mod ssh;
pub mod listing;
pub mod resources;
pub mod clock;
pub mod ranking;
