pub mod errors;
pub mod types;

pub use errors::LoggerError;
pub use types::{Logger, LoggerMessage};
