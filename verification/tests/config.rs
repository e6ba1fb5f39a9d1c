use bittorrent_rustico::config::{create_config, create_config_dict, ConfigError};

#[test]
fn parses_correct_config() {
    let content = "listen_port=4424\nlog_path=src/config/test_files/\ndownload_path=src/config/test_files/\n";
    let config = create_config(&create_config_dict(content)).unwrap();
    assert_eq!(config.listen_port, 4424);
    assert_eq!(config.log_path, "src/config/test_files/");
    assert_eq!(config.download_path, "src/config/test_files/");
}

#[test]
fn throws_on_missing_keys() {
    let content = "listen_port=4424\nlog_path=src/config/test_files/\n";
    let config = create_config(&create_config_dict(content));
    assert_eq!(
        config.unwrap_err(),
        ConfigError::MissingKey("download_path".to_string())
    );
}

#[test]
fn throws_on_invalid_port() {
    let content = "listen_port=99999\nlog_path=src/\ndownload_path=src/\n";
    let config = create_config(&create_config_dict(content));
    assert!(matches!(
        config,
        Err(ConfigError::InvalidPort(std::num::ParseIntError { .. }))
    ));
}

#[test]
fn throws_on_invalid_format_config() {
    let content = "listen_port: 4424\nlog_path: src/\ndownload_path: src/\n";
    let config = create_config(&create_config_dict(content));
    assert!(matches!(config, Err(ConfigError::MissingKey(_))));
}

#[test]
fn dictionary_keeps_lines_with_an_equals_sign() {
    let dict = create_config_dict("a=1\r\nno equals\nb=2=3\n=empty key\nc=\nlast=x");
    assert_eq!(
        dict,
        vec![
            ("a".to_string(), "1".to_string()),
            ("b".to_string(), "2".to_string()),
            ("".to_string(), "empty key".to_string()),
            ("c".to_string(), "".to_string()),
            ("last".to_string(), "x".to_string()),
        ]
    );
    assert!(create_config_dict("").is_empty());
    assert!(create_config_dict("\n\n").is_empty());
}

#[test]
fn later_lines_win_and_keys_are_looked_up_in_order() {
    let content = "listen_port=1\nlisten_port=+80\nlog_path=/logs\ndownload_path=/a\ndownload_path=/b";
    let config = create_config(&create_config_dict(content)).unwrap();
    assert_eq!(config.listen_port, 80);
    assert_eq!(config.log_path, "/logs");
    assert_eq!(config.download_path, "/b");
    // the first missing key is reported
    let config = create_config(&create_config_dict("download_path=/a"));
    assert_eq!(
        config.unwrap_err(),
        ConfigError::MissingKey("listen_port".to_string())
    );
    let config = create_config(&create_config_dict("listen_port=1\ndownload_path=/a"));
    assert_eq!(
        config.unwrap_err(),
        ConfigError::MissingKey("log_path".to_string())
    );
    // a bad port is reported before a missing path
    let config = create_config(&create_config_dict("listen_port= 1\n"));
    assert!(matches!(config, Err(ConfigError::InvalidPort(_))));
    let config = create_config(&create_config_dict("listen_port=-1\n"));
    assert!(matches!(config, Err(ConfigError::InvalidPort(_))));
    let config = create_config(&create_config_dict("listen_port=65535\nlog_path=\ndownload_path="));
    assert_eq!(config.unwrap().listen_port, 65535);
}
