pub mod decoder;
pub mod encoder;
pub mod errors;
pub mod spec;
pub mod laws;
pub mod types;

pub use decoder::decode;
pub use encoder::encode;
pub use errors::{BencodeDecoderError, ValueKind};
pub use types::{BencodeDecodedValue, BencodeDictionary};
