use bittorrent_rustico::http::{
    remove_port_from_host, request_text, response_body, url_to_host, IHttpService,
    MockHttpsService,
};

#[test]
fn removes_port_from_host() {
    assert_eq!(remove_port_from_host("tracker.example.org:6969"), "tracker.example.org");
    assert_eq!(remove_port_from_host("tracker.example.org"), "tracker.example.org");
    assert_eq!(remove_port_from_host(":80"), "");
    assert_eq!(remove_port_from_host("a:b:c"), "a");
}

#[test]
fn finds_response_body() {
    assert_eq!(
        response_body(b"HTTP/1.1 200 OK\r\nContent-Length: 2\r\n\r\nhi"),
        Some(b"hi".to_vec())
    );
    assert_eq!(response_body(b"HTTP/1.1 200 OK\r\n\r\n"), Some(Vec::new()));
    assert_eq!(response_body(b"no separator\r\n"), None);
    assert_eq!(response_body(b""), None);
    assert_eq!(response_body(b"\r\n\r\na\r\n\r\nb"), Some(b"a\r\n\r\nb".to_vec()));
}

#[test]
fn url_host_and_port() {
    assert_eq!(
        url_to_host("https://torrent.ubuntu.com/announce").unwrap(),
        "torrent.ubuntu.com:443"
    );
    assert_eq!(
        url_to_host("http://tracker.example.org:6969/announce").unwrap(),
        "tracker.example.org:6969"
    );
    assert_eq!(url_to_host("udp://host").unwrap(), "host:443");
    assert_eq!(url_to_host("a://b://c").unwrap(), "b:443");
    let error = url_to_host("tracker.example.org").unwrap_err();
    assert_eq!(error.0, "Missign HOST in URL: tracker.example.org");
    assert_eq!(error.message(), "Missign HOST in URL: tracker.example.org");
}

#[test]
fn builds_get_request() {
    assert_eq!(
        request_text("/announce", "info_hash=abc&port=6881", "tracker:443"),
        "GET /announce?info_hash=abc&port=6881 HTTP/1.1\r\nHost: tracker:443\r\n\r\n"
    );
}

#[test]
fn mock_answers_with_its_bytes() {
    let mut mock = MockHttpsService {
        read_bytes: b"d8:intervali1800ee".to_vec(),
    };
    assert_eq!(mock.get("/announce", "a=b").unwrap(), b"d8:intervali1800ee".to_vec());
    assert_eq!(mock.answer(), b"d8:intervali1800ee".to_vec());
}
