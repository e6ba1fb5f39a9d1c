use bittorrent_rustico::download_manager::{
    check_piece, get_existing_pieces, piece_file_path, DownloadManagerError, Piece,
};

#[test]
fn fails_when_trying_to_save_piece_with_no_data() {
    let piece_number = 3;
    let piece = Piece {
        piece_number,
        data: Vec::new(),
    };

    let result = check_piece(&piece);
    match result {
        Ok(_) => panic!("Should have failed when trying to save piece with no data"),
        Err(err) => assert!(matches!(err, DownloadManagerError::EmptyPieceError)),
    };
}

#[test]
fn piece_with_data_can_be_saved() {
    let piece = Piece {
        piece_number: 1,
        data: vec![1],
    };
    assert!(check_piece(&piece).is_ok());
}

#[test]
fn piece_file_is_named_by_its_number() {
    assert_eq!(piece_file_path("./downloads/pieces", 14), "./downloads/pieces/14");
    assert_eq!(piece_file_path("", 0), "/0");
}

#[test]
fn existing_pieces_in_order() {
    assert_eq!(get_existing_pieces(4, &[true, false, true, true]), vec![0, 2, 3]);
    assert_eq!(get_existing_pieces(2, &[false, true, true]), vec![1]);
    assert!(get_existing_pieces(0, &[]).is_empty());
}
