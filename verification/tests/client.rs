use bittorrent_rustico::client::peer_id_from_index;

#[test]
fn peer_id_from_index_is_the_sha1_of_the_index() {
    // SHA-1 of the empty text
    assert_eq!(
        peer_id_from_index(""),
        [
            0xda, 0x39, 0xa3, 0xee, 0x5e, 0x6b, 0x4b, 0x0d, 0x32, 0x55, 0xbf, 0xef, 0x95, 0x60,
            0x18, 0x90, 0xaf, 0xd8, 0x07, 0x09
        ]
    );
    assert_eq!(peer_id_from_index("1"), peer_id_from_index("1"));
    assert_ne!(peer_id_from_index("1"), peer_id_from_index("2"));
}
