pub mod errors;
pub mod pieces;
pub mod types;

pub use errors::DownloadManagerError;
pub use pieces::{check_piece, get_existing_pieces, piece_file_path};
pub use types::Piece;
