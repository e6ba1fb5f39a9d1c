use bittorrent_rustico::config::ConfigError;
use bittorrent_rustico::download_manager::DownloadManagerError;
use bittorrent_rustico::logger::LoggerError;
use bittorrent_rustico::peer::{IPeerMessageServiceError, PeerConnectionError};
use bittorrent_rustico::peer_connection_manager::OpenPeerConnectionError;

#[test]
fn config_errors_describe_themselves() {
    assert_eq!(
        ConfigError::MissingKey("log_path".to_string()).to_string(),
        "Missing key: log_path"
    );
    assert_eq!(
        ConfigError::InvalidPath("/nowhere".to_string()).to_string(),
        "/nowhere is not an existing directory"
    );
    let parse_error = "x".parse::<u16>().unwrap_err();
    assert_eq!(
        ConfigError::InvalidPort(parse_error.clone()).to_string(),
        format!("Invalid port: {}", parse_error)
    );
}

#[test]
fn download_errors_describe_themselves() {
    assert_eq!(
        DownloadManagerError::MissingPieceError(2).to_string(),
        "File for piece 2 does not exist"
    );
    assert_eq!(
        DownloadManagerError::EmptyPieceError.to_string(),
        "Can't save piece with no data in disk"
    );
    assert_eq!(
        DownloadManagerError::CreateFileError("a/b".to_string()).to_string(),
        "Can't create file: a/b"
    );
}

#[test]
fn logger_errors_describe_themselves() {
    assert_eq!(
        LoggerError::InexistentListener.to_string(),
        "Logger failed writing because the listener doesn't exist"
    );
    assert_eq!(
        LoggerError::CreateDirectoryError("logs".to_string()).to_string(),
        "Can't create directory: logs"
    );
}

#[test]
fn peer_errors_describe_themselves() {
    assert_eq!(
        IPeerMessageServiceError::ReceivingMessageError("timeout".to_string()).to_string(),
        "Receiving message error: timeout"
    );
    assert_eq!(
        IPeerMessageServiceError::InvalidMessageId.to_string(),
        "Received message id which is not valid"
    );
    let error = PeerConnectionError::PeerMessageError(IPeerMessageServiceError::UnhandledMessage);
    assert_eq!(
        error.to_string(),
        "Peer message error: Peer received a message which does not know how to handle"
    );
    assert_eq!(
        OpenPeerConnectionError::PeerConnectionError(PeerConnectionError::JoiningError(
            "worker".to_string()
        ))
        .to_string(),
        "OpenPeerConnection Error: Joining error: worker"
    );
}

#[test]
fn numbers_are_written_in_decimal() {
    assert_eq!(bittorrent_rustico::text::u64_to_text(0), "0");
    assert_eq!(bittorrent_rustico::text::u64_to_text(7), "7");
    assert_eq!(bittorrent_rustico::text::u64_to_text(1090), "1090");
    assert_eq!(bittorrent_rustico::text::u64_to_text(u64::MAX), u64::MAX.to_string());
    assert_eq!(
        bittorrent_rustico::logger::Logger::log_line(42),
        "Received piece: 42\n"
    );
}
