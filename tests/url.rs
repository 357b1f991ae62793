use h1_server::error::Error;
use h1_server::request::{tokenize_head, url_from_httparse_req, RawHead};
use h1_server::MAX_HEADERS;

fn httparse_req(buf: &str, f: impl Fn(RawHead)) {
    let (_, req) = tokenize_head(buf.as_bytes(), MAX_HEADERS).unwrap();
    f(req)
}

fn text(url: Vec<u8>) -> String {
    String::from_utf8(url).unwrap()
}

#[test]
fn url_for_connect() {
    httparse_req(
        "CONNECT server.example.com:443 HTTP/1.1\r\nHost: server.example.com:443\r\n",
        |req| {
            let url = url_from_httparse_req(&req, None).unwrap();
            assert_eq!(text(url), "http://server.example.com:443/");
        },
    );
}

#[test]
fn url_for_host_plus_path() {
    httparse_req(
        "GET /some/resource HTTP/1.1\r\nHost: server.example.com:443\r\n",
        |req| {
            let url = url_from_httparse_req(&req, None).unwrap();
            assert_eq!(text(url), "http://server.example.com:443/some/resource");
        },
    )
}

#[test]
fn url_for_host_plus_absolute_url() {
    httparse_req(
        "GET http://domain.com/some/resource HTTP/1.1\r\nHost: server.example.com\r\n",
        |req| {
            let url = url_from_httparse_req(&req, None).unwrap();
            assert_eq!(text(url), "http://domain.com/some/resource");
        },
    )
}

#[test]
fn url_for_conflicting_connect() {
    httparse_req(
        "CONNECT server.example.com:443 HTTP/1.1\r\nHost: conflicting.host\r\n",
        |req| {
            let url = url_from_httparse_req(&req, None).unwrap();
            assert_eq!(text(url), "http://server.example.com:443/");
        },
    )
}

#[test]
fn url_for_malformed_resource_path() {
    httparse_req(
        "GET not-a-url HTTP/1.1\r\nHost: server.example.com\r\n",
        |req| {
            assert!(matches!(
                url_from_httparse_req(&req, None),
                Err(Error::UnexpectedURIFormat)
            ));
        },
    )
}

#[test]
fn url_for_double_slash_path() {
    httparse_req(
        "GET //double/slashes HTTP/1.1\r\nHost: server.example.com:443\r\n",
        |req| {
            let url = url_from_httparse_req(&req, None).unwrap();
            assert_eq!(text(url), "http://server.example.com:443//double/slashes");
        },
    )
}

#[test]
fn url_for_triple_slash_path() {
    httparse_req(
        "GET ///triple/slashes HTTP/1.1\r\nHost: server.example.com:443\r\n",
        |req| {
            let url = url_from_httparse_req(&req, None).unwrap();
            assert_eq!(text(url), "http://server.example.com:443///triple/slashes");
        },
    )
}

#[test]
fn url_for_query() {
    httparse_req(
        "GET /foo?bar=1 HTTP/1.1\r\nHost: server.example.com:443\r\n",
        |req| {
            let url = url_from_httparse_req(&req, None).unwrap();
            assert_eq!(text(url), "http://server.example.com:443/foo?bar=1");
        },
    )
}

#[test]
fn url_for_anchor() {
    httparse_req(
        "GET /foo?bar=1#anchor HTTP/1.1\r\nHost: server.example.com:443\r\n",
        |req| {
            let url = url_from_httparse_req(&req, None).unwrap();
            assert_eq!(text(url), "http://server.example.com:443/foo?bar=1#anchor");
        },
    )
}

#[test]
fn url_for_host_from_default() {
    let (_, req) = tokenize_head(b"GET /x HTTP/1.0\r\n\r\n", MAX_HEADERS).unwrap();
    let url = url_from_httparse_req(&req, Some(b"example.com")).unwrap();
    assert_eq!(text(url), "http://example.com/x");
}

#[test]
fn url_without_any_host() {
    let (_, req) = tokenize_head(b"GET /x HTTP/1.1\r\n\r\n", MAX_HEADERS).unwrap();
    assert_eq!(url_from_httparse_req(&req, None), Err(Error::HostHeaderMissing));
}

#[test]
fn url_refused_by_parser() {
    let (_, req) = tokenize_head(b"GET /x HTTP/1.1\r\nHost: a b\r\n\r\n", MAX_HEADERS).unwrap();
    assert_eq!(url_from_httparse_req(&req, None), Err(Error::InvalidUrl));
}
