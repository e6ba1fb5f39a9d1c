use vstd::prelude::*;

use super::errors::DownloadManagerError;
use super::types::Piece;
use crate::text::{decimal_text, u64_to_text};
use vstd::string::StringExecFns;

verus! {

/// A piece with no data cannot be saved.
pub fn check_piece(piece: &Piece) -> (res: Result<(), DownloadManagerError>)
    ensures
        res is Ok <==> piece.data@.len() > 0,
        res matches Err(e) ==> e is EmptyPieceError,
{
    if piece.data.len() == 0 {
        Err(DownloadManagerError::EmptyPieceError)
    } else {
        Ok(())
    }
}

/// The path of the file of the piece `piece_number` in the directory `dir`.
pub fn piece_file_path(dir: &str, piece_number: u32) -> (path: String)
    ensures
        path@ == dir@ + "/"@ + decimal_text(piece_number as nat),
{
    let path = String::from_str(dir);
    let path = path.concat("/");
    path.concat(u64_to_text(piece_number as u64).as_str())
}

/// The pieces among the first `piece_count` whose file is there, in order; `present` says,
/// for each piece, whether its file is there.
pub fn get_existing_pieces(piece_count: u32, present: &[bool]) -> (pieces: Vec<u32>)
    requires
        piece_count <= present@.len(),
    ensures
        pieces@ == Seq::new(piece_count as nat, |i: int| i as u32).filter(
            |i: u32| present@[i as int],
        ),
{
    let ghost all = Seq::new(piece_count as nat, |i: int| i as u32);
    let ghost pred = |i: u32| present@[i as int];
    let mut pieces: Vec<u32> = Vec::new();
    let mut i: u32 = 0;
    proof {
        reveal(Seq::filter);
        assert(all.take(0) =~= Seq::<u32>::empty());
    }
    while i < piece_count
        invariant
            i <= piece_count,
            piece_count <= present@.len(),
            all == Seq::new(piece_count as nat, |i: int| i as u32),
            pred == (|i: u32| present@[i as int]),
            pieces@ == all.take(i as int).filter(pred),
        decreases piece_count - i,
    {
        proof {
            reveal(Seq::filter);
            assert(all.take(i + 1).drop_last() =~= all.take(i as int));
        }
        if present[i as usize] {
            pieces.push(i);
        }
        assert(pieces@ =~= all.take(i + 1).filter(pred));
        i += 1;
    }
    assert(all.take(piece_count as int) =~= all);
    pieces
}

} // verus!
