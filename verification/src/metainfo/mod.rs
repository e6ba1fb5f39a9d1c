pub mod errors;
pub mod parser;
pub mod types;

pub use errors::MetainfoParserError;
pub use parser::parse;
pub use types::{File, Info, Metainfo};
