//! Type-safe, freeze-on-load environment variable management.
//! Read and parse your environment once at startup into typed values.

pub mod check;
pub mod dotenv;
pub mod duration;
pub mod error;
pub mod list;
pub mod lock;
pub mod number;
pub mod parse;
pub mod text;
pub mod watcher;

pub use error::{EnvLockError, HintText};
pub use parse::{FromEnvStr, Secret};
