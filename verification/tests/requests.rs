//! URIs, headers and requests.
use plumbrs::body::{body_source, body_sources, full_body, request_body, BodySource};
use plumbrs::client::{ClientType, Http1, Http2};
use plumbrs::headers::{
    build_headers, build_trailers, closing_headers, collect_headers, ensure_content_length,
    handshake_headers, HeaderError,
};
use plumbrs::options::Options;
use plumbrs::request::{announcement, plan_request, prepare, wire_request, PlanError};
use plumbrs::tls;
use plumbrs::uri::{
    build_conn_endpoint, explain_uri, get_conn_address, has_https, move_to, origin_form, parse_uri,
    request_uri, tls_server_name, Uri,
};

fn uri(s: &str) -> Uri {
    parse_uri(s).unwrap()
}

fn options(uri: &str) -> Options {
    let mut opts = Options::default();
    opts.uri = vec![uri.to_string()];
    opts
}

#[test]
fn origin_form_strips_scheme_and_authority() {
    let uri = uri("http://myhost/home");
    assert_eq!(origin_form(&uri).text, "/home");
}

#[test]
fn origin_form_keeps_query() {
    let uri = uri("https://myhost:8080/home?x=1");
    assert_eq!(origin_form(&uri).text, "/home?x=1");
}

#[test]
fn origin_form_empty_path() {
    let uri = uri("http://myhost");
    assert_eq!(origin_form(&uri).text, "/");
}

#[test]
fn request_uri_absolute_unchanged() {
    let uri = uri("http://myhost/home");
    assert_eq!(request_uri(&uri, true), uri);
}

#[test]
fn request_uri_relative_is_origin_form() {
    let uri = uri("http://myhost/home");
    assert_eq!(request_uri(&uri, false).text, "/home");
}

#[test]
fn build_headers_http1_with_hostname() {
    let opts = options("http://example.com/api");
    let uri = uri("http://example.com/api");
    let headers = build_headers(&uri, &opts).unwrap();
    assert_eq!(headers.get(http::header::HOST).unwrap(), "example.com");
}

#[test]
fn build_headers_http1_with_ip() {
    let opts = options("http://192.168.1.1:8080/api");
    let uri = uri("http://192.168.1.1:8080/api");
    let headers = build_headers(&uri, &opts).unwrap();
    assert_eq!(headers.get(http::header::HOST).unwrap(), "192.168.1.1:8080");
}

#[test]
fn build_headers_http1_custom_host_header_preserved() {
    let mut opts = options("http://192.168.1.1:8080/api");
    opts.headers = vec![("Host".to_string(), "custom.override.com".to_string())];
    let uri = uri("http://192.168.1.1:8080/api");
    let headers = build_headers(&uri, &opts).unwrap();
    let host_headers: Vec<_> = headers.get_all(http::header::HOST).iter().collect();
    assert_eq!(host_headers.len(), 1);
    assert_eq!(host_headers[0], "custom.override.com");
}

#[test]
fn build_headers_http2_omits_host_header() {
    let mut opts = options("http://example.com/api");
    opts.http2 = true;
    let uri = uri("http://example.com/api");
    let headers = build_headers(&uri, &opts).unwrap();
    assert!(headers.get(http::header::HOST).is_none());
}

#[test]
fn build_headers_http1_with_opts_host() {
    let mut opts = options("http://192.168.1.1:8080/api");
    opts.host = Some("virtual.host.com".to_string());
    let uri = uri("http://192.168.1.1:8080/api");
    let headers = build_headers(&uri, &opts).unwrap();
    assert_eq!(headers.get(http::header::HOST).unwrap(), "virtual.host.com:8080");

    // And verify get_conn_address still connects to the endpoint IP, not the virtual host!
    let (host, port) = get_conn_address(&opts, &uri).unwrap();
    assert_eq!(host, "192.168.1.1");
    assert_eq!(port, 8080);
}

#[test]
fn get_conn_address_fallback_to_opts_host() {
    let mut opts = options("/api");
    opts.host = Some("10.0.0.1".to_string());
    let uri = uri("/api");
    let (host, port) = get_conn_address(&opts, &uri).unwrap();
    assert_eq!(host, "10.0.0.1");
    assert_eq!(port, 80);
}

#[test]
fn ports_follow_the_scheme_and_the_settings() {
    let mut opts = options("https://example.com/");
    assert_eq!(get_conn_address(&opts, &uri("https://example.com/")).unwrap().1, 443);
    assert_eq!(get_conn_address(&opts, &uri("https://example.com:8443/")).unwrap().1, 8443);
    opts.port = Some(9000);
    assert_eq!(get_conn_address(&opts, &uri("https://example.com:8443/")).unwrap().1, 9000);
    opts.port = None;
    opts.http2 = true;
    assert_eq!(get_conn_address(&opts, &uri("http://example.com/")).unwrap().1, 443);
    assert!(get_conn_address(&opts, &uri("/api")).is_none());
    assert_eq!(build_conn_endpoint("example.com", 443), "example.com:443");
}

#[test]
fn server_names_are_for_https_alone() {
    let mut opts = options("https://example.com/");
    let secure = uri("https://example.com/");
    let plain = uri("http://example.com/");
    assert!(has_https(&secure));
    assert!(!has_https(&plain));
    assert_eq!(tls_server_name(&opts, &secure), Some("example.com"));
    assert_eq!(tls_server_name(&opts, &plain), None);
    opts.sni = Some("other.name".to_string());
    assert_eq!(tls_server_name(&opts, &secure), Some("other.name"));
}

#[test]
fn complaints_about_uris() {
    assert!(parse_uri("http://exa mple/").unwrap_err().starts_with("invalid uri: "));
    assert_eq!(explain_uri(Err("bad".to_string())).unwrap_err(), "invalid uri: bad");
}

#[test]
fn servers_move_to_a_path_or_to_another_uri() {
    let moved = move_to("http://localhost:3001/sse", "/messages?id=7").unwrap();
    assert_eq!(moved.text, "http://localhost:3001/messages?id=7");
    assert_eq!(moved.host, Some("localhost".to_string()));
    assert_eq!(moved.port, Some(("3001".to_string(), 3001)));
    let other = move_to("http://localhost:3001/sse", "https://other/x").unwrap();
    assert_eq!(other.text, "https://other/x");
    assert!(move_to("http://localhost/sse", "http://exa mple/")
        .unwrap_err()
        .starts_with("invalid uri from SSE: "));
    assert!(move_to("http://localhost/sse", "/a b").unwrap_err().starts_with("invalid path from SSE: "));
    let query = move_to("https://u@Host:8443/sse?a", "?id=7").unwrap();
    assert_eq!(query.text, "https://u@Host:8443/?id=7");
    assert_eq!(query.scheme, Some("https".to_string()));
    assert_eq!(query.authority, Some("u@Host:8443".to_string()));
    assert_eq!(query.host, Some("Host".to_string()));
    assert_eq!(query.port, Some(("8443".to_string(), 8443)));
    assert_eq!(query.path_and_query, Some("?id=7".to_string()));
    assert_eq!(move_to("http://a/b", "#c").unwrap().text, "http://a/");
    assert_eq!(move_to("/b", "#c").unwrap().text, "");
    assert_eq!(move_to("/b", "*").unwrap().text, "*");
    assert_eq!(move_to("localhost:3001", "/x").unwrap_err(), "invalid new uri: scheme missing");
    assert_eq!(move_to("", "/x").unwrap_err(), "invalid new uri: empty string");
}

#[test]
fn headers_that_are_none() {
    let mut opts = options("http://example.com/");
    opts.headers = vec![("a b".to_string(), "v".to_string())];
    let e = build_headers(&uri("http://example.com/"), &opts).unwrap_err();
    assert_eq!(e, HeaderError::Name(0));
    assert_eq!(e.message(), "invalid header name: invalid HTTP header name");
    opts.headers = vec![
        ("a".to_string(), "v".to_string()),
        ("b".to_string(), "x\ny".to_string()),
    ];
    let e = build_headers(&uri("http://example.com/"), &opts).unwrap_err();
    assert_eq!(e, HeaderError::Value(1));
    assert_eq!(e.message(), "invalid header value: failed to parse header value");
    opts.headers = vec![];
    opts.trailers = vec![("a\nb".to_string(), "v".to_string())];
    assert_eq!(
        build_headers(&uri("http://example.com/"), &opts).unwrap_err(),
        HeaderError::TrailerList
    );
    assert_eq!(build_trailers(&opts).unwrap_err(), HeaderError::TrailerName(0));
    opts.trailers = vec![("ab".to_string(), "x\ny".to_string())];
    assert_eq!(build_trailers(&opts).unwrap_err(), HeaderError::TrailerValue(0));
    opts.trailers = vec![];
    opts.host = Some("a\nb".to_string());
    assert_eq!(
        build_headers(&uri("http://example.com/"), &opts).unwrap_err(),
        HeaderError::Host
    );
}

#[test]
fn given_headers_keep_their_values() {
    let mut opts = options("http://example.com/");
    opts.headers = vec![
        ("X-One".to_string(), "1".to_string()),
        ("x-one".to_string(), "2".to_string()),
    ];
    let headers = build_headers(&uri("http://example.com/"), &opts).unwrap();
    let all: Vec<_> = headers.get_all("x-one").iter().collect();
    assert_eq!(all.len(), 2);
    assert_eq!(all[0], "1");
    assert_eq!(all[1], "2");
}

#[test]
fn trailers_are_announced() {
    let mut opts = options("http://example.com/");
    opts.trailers = vec![
        ("a".to_string(), "1".to_string()),
        ("b".to_string(), "2".to_string()),
    ];
    let headers = build_headers(&uri("http://example.com/"), &opts).unwrap();
    assert_eq!(headers.get("trailer").unwrap(), "a, b");
    let trailers = build_trailers(&opts).unwrap().unwrap();
    assert_eq!(trailers.get("b").unwrap(), "2");
    opts.trailers = vec![];
    assert!(build_trailers(&opts).unwrap().is_none());
}

#[test]
fn a_body_has_a_length() {
    let opts = options("http://example.com/");
    let headers = build_headers(&uri("http://example.com/"), &opts).unwrap();
    let with = ensure_content_length(headers.clone(), 10);
    assert_eq!(with.get("content-length").unwrap(), "10");
    let without = ensure_content_length(headers.clone(), 0);
    assert!(without.get("content-length").is_none());
    let mut chunked = headers.clone();
    chunked.insert("transfer-encoding", http::HeaderValue::from_static("chunked"));
    assert!(ensure_content_length(chunked, 10).get("content-length").is_none());
    let closing = closing_headers(&headers);
    assert_eq!(closing.get("connection").unwrap(), "close");
    assert!(headers.get("connection").is_none());
}

#[test]
fn a_stream_of_events_is_asked_for() {
    let mut opts = options("http://example.com/");
    opts.headers = vec![
        ("Accept".to_string(), "text/plain".to_string()),
        ("X-A".to_string(), "1".to_string()),
    ];
    let headers = collect_headers(&uri("http://example.com/"), &opts, true).unwrap();
    let h = handshake_headers(&headers);
    let accept: Vec<_> = h.get_all("accept").iter().collect();
    assert_eq!(accept.len(), 2);
    assert_eq!(accept[0], "text/event-stream");
    assert_eq!(accept[1], "text/plain");
    assert_eq!(h.get("cache-control").unwrap(), "no-cache");
    assert_eq!(h.get("x-a").unwrap(), "1");
    assert_eq!(h.get("host").unwrap(), "example.com");
    let names: Vec<_> = h.keys().map(|k| k.as_str().to_string()).collect();
    assert_eq!(names[0], "accept");
    assert_eq!(names[1], "cache-control");
}

#[test]
fn plans_of_requests() {
    let mut opts = options("http://example.com:8080/a?b=c");
    opts.method = Some("PUT".to_string());
    let p = prepare(7, ClientType::Hyper, &opts).unwrap();
    assert_eq!(p.target.text, "/a?b=c");
    assert_eq!(p.endpoint, "example.com:8080");
    assert_eq!(p.method, "PUT");
    assert_eq!(p.server_name, None);
    assert_eq!(p.closing.get("connection").unwrap(), "close");
    let p = prepare(0, ClientType::HyperMcp, &opts).unwrap();
    assert_eq!(p.method, "POST");
    let p = prepare(0, ClientType::HyperH2, &opts).unwrap();
    assert_eq!(p.target.text, "http://example.com:8080/a?b=c");
    assert!(p.headers.get("host").is_none());
}

#[test]
fn plans_that_are_refused() {
    let e = prepare(0, ClientType::Hyper, &options("http://exa mple/")).unwrap_err();
    assert!(e.message().starts_with("invalid uri: "));
    assert_eq!(e.exit_code(), 1);
    let e = prepare(0, ClientType::Hyper, &options("/api")).unwrap_err();
    assert!(matches!(e, PlanError::NoHost));
    assert_eq!(e.message(), "no host specified in uri");
    assert_eq!(e.exit_code(), 1);
    let mut opts = options("/api");
    opts.host = Some("10.0.0.1".to_string());
    assert!(prepare(0, ClientType::Hyper, &opts).is_ok());
    let e = prepare(0, ClientType::HyperLegacy, &opts).unwrap_err();
    assert_eq!(e.message(), "host not found");
    assert_eq!(e.exit_code(), 3);
    let mut opts = options("http://example.com/");
    opts.headers = vec![("a b".to_string(), "v".to_string())];
    let e = plan_request(uri("http://example.com/"), ClientType::Hyper, &opts).unwrap_err();
    assert_eq!(e.exit_code(), 2);
    assert_eq!(e.message(), "invalid header name: invalid HTTP header name");
}

#[test]
fn uris_are_dealt_out_in_turn() {
    let mut opts = options("http://a/");
    opts.uri.push("http://b/".to_string());
    assert_eq!(prepare(0, ClientType::Hyper, &opts).unwrap().host, "a");
    assert_eq!(prepare(1, ClientType::Hyper, &opts).unwrap().host, "b");
    assert_eq!(prepare(2, ClientType::Hyper, &opts).unwrap().host, "a");
}

#[test]
fn requests_on_the_wire() {
    let mut opts = options("http://example.com/x");
    opts.method = Some("POST".to_string());
    let p = prepare(0, ClientType::Compio, &opts).unwrap();
    let bytes = wire_request(&p, b"hello-body", false).unwrap();
    let text = String::from_utf8(bytes).unwrap();
    assert_eq!(
        text,
        "POST /x HTTP/1.1\r\nhost: example.com\r\ncontent-length: 10\r\n\r\nhello-body"
    );
    let closing = String::from_utf8(wire_request(&p, b"", true).unwrap()).unwrap();
    assert!(closing.contains("connection: close\r\n"));
    assert!(!closing.contains("content-length"));
}

#[test]
fn announcements() {
    let opts = options("http://example.com/x");
    let p = prepare(0, ClientType::Hyper, &opts).unwrap();
    assert_eq!(
        announcement(ClientType::Hyper, 3, &p, &opts),
        "hyper [ 3] -> connecting to example.com:80, uri = http://example.com/x HTTP/1.1..."
    );
    assert_eq!(
        announcement(ClientType::HyperH2, 12, &p, &opts),
        "hyper-h2 [12] -> connecting to example.com:80, method = GET uri = http://example.com/x HTTP2..."
    );
    assert_eq!(
        announcement(ClientType::Reqwest, 1, &p, &opts),
        "[  1] reqwest -> connecting to http://example.com/x HTTP/1.1..."
    );
    assert_eq!(
        announcement(ClientType::HyperRt1, 1, &p, &opts),
        "hyper-rt1 [ 1] -> connecting. GET http://example.com/x HTTP/1.1..."
    );
    assert_eq!(
        announcement(ClientType::HyperMcp, 1, &p, &opts),
        "hyper-mcp [ 1] -> connecting to example.com:80, method = POST uri = http://example.com/x HTTP/1.1 (transport streamableHttp)..."
    );
    assert_eq!(
        announcement(ClientType::TokioUring, 1, &p, &opts),
        "io-uring [ 1] -> connecting to example.com:80, method = GET uri = http://example.com/x ..."
    );
    assert_eq!(Http1::scheme(), "HTTP/1.1");
    assert_eq!(Http2::scheme(), "HTTP/2");
}

#[test]
fn bodies_and_files() {
    assert!(matches!(body_source("@./payload.json"), BodySource::File(p) if p == "./payload.json"));
    assert!(matches!(body_source("a@b"), BodySource::Text(t) if t == "a@b"));
    let mut opts = Options::default();
    opts.body = vec!["x".to_string(), "@f".to_string()];
    let sources = body_sources(&opts);
    assert_eq!(sources.len(), 2);
    assert!(matches!(&sources[1], BodySource::File(p) if p == "f"));
}

#[test]
fn clients_send_a_body_in_pieces_or_whole() {
    let parts = || vec![b"ab".to_vec(), b"cd".to_vec()];
    assert_eq!(request_body(ClientType::HyperChunked, parts()), parts());
    assert_eq!(request_body(ClientType::TokioUring, parts()), vec![b"abcd".to_vec()]);
    assert_eq!(request_body(ClientType::Hyper, parts()), vec![b"ab".to_vec()]);
    assert_eq!(request_body(ClientType::Hyper, vec![]), vec![Vec::<u8>::new()]);
    assert_eq!(full_body(parts()), b"abcd".to_vec());
    for client in [ClientType::Hyper, ClientType::HyperRt1, ClientType::HyperChunked] {
        assert_eq!(request_body(client, vec![b"one".to_vec()]), vec![b"one".to_vec()]);
    }
}

#[test]
fn protocols_of_tls_connections() {
    let (one, two) = tls::init(false);
    assert_eq!(one.protocols, vec![b"http/1.1".to_vec()]);
    assert_eq!(two.protocols, vec![b"h2".to_vec()]);
    assert!(one.verifies);
    assert!(!tls::settings(true, true).verifies);
}

const TOKENS: &str =
    "!#$%&'*+-.^_`|~0123456789abcdefghijklmnopqrstuvwxyzABCDEFGHIJKLMNOPQRSTUVWXYZ";

#[test]
fn header_names_are_tokens_and_values_have_no_control_characters() {
    let uri = uri("http://example.com/");
    for code in 0..=255u32 {
        let c = char::from_u32(code).unwrap();
        let mut opts = options("http://example.com/");
        opts.headers = vec![(c.to_string(), "v".to_string())];
        let named = build_headers(&uri, &opts);
        assert_eq!(named.is_ok(), TOKENS.contains(c), "{code}");
        if let Ok(map) = named {
            let lower = c.to_ascii_lowercase().to_string();
            assert!(map.keys().any(|k| k.as_str() == lower), "{code}");
        }
        opts.headers = vec![("a".to_string(), c.to_string())];
        let valued = build_headers(&uri, &opts);
        let control = code < 32 && c != '\t' || code == 127;
        assert_eq!(valued.is_ok(), !control, "{code}");
        if let Ok(map) = valued {
            assert_eq!(map.get("a").unwrap().as_bytes(), c.to_string().as_bytes());
        }
    }
    let mut opts = options("http://example.com/");
    opts.headers = vec![("a".repeat(65535), "v".to_string())];
    assert!(build_headers(&uri, &opts).is_ok());
    opts.headers = vec![("a".repeat(65536), "v".to_string())];
    assert!(build_headers(&uri, &opts).is_err());
}

#[test]
fn many_headers_keep_their_order() {
    let uri = uri("http://example.com/");
    let mut opts = options("http://example.com/");
    opts.headers = (0..3000).map(|i| (format!("x-{}", i % 2000), i.to_string())).collect();
    let map = build_headers(&uri, &opts).unwrap();
    let names: Vec<String> = map.keys().map(|k| k.as_str().to_string()).collect();
    let given: Vec<String> = (0..2000).map(|i| format!("x-{i}")).collect();
    let own: Vec<String> = names.iter().filter(|n| n.starts_with("x-")).cloned().collect();
    assert_eq!(own, given);
    let both: Vec<_> = map.get_all("x-7").iter().collect();
    assert_eq!(both.len(), 2);
    assert_eq!(both[0], "7");
    assert_eq!(both[1], "2007");
    let pairs: Vec<(String, String)> = handshake_headers(&map)
        .iter()
        .map(|(k, v)| (k.as_str().to_string(), v.to_str().unwrap().to_string()))
        .filter(|(k, _)| k.starts_with("x-"))
        .collect();
    assert_eq!(pairs.len(), 3000);
    assert_eq!(pairs[0], ("x-0".to_string(), "0".to_string()));
    assert_eq!(pairs[1], ("x-0".to_string(), "2000".to_string()));
    let closing = closing_headers(&map);
    let last = closing.keys().last().unwrap().as_str().to_string();
    assert_eq!(last, "connection");
}

fn request_line(given: &str, absolute: bool) -> String {
    let mut opts = options(given);
    opts.absolute_uri = absolute;
    let p = prepare(0, ClientType::TokioUring, &opts).unwrap();
    let bytes = String::from_utf8(wire_request(&p, b"", false).unwrap()).unwrap();
    bytes.lines().next().unwrap().to_string()
}

#[test]
fn request_lines_name_the_target() {
    assert_eq!(request_line("http://a.b:81/c?d", false), "GET /c?d HTTP/1.1");
    assert_eq!(request_line("http://a.b:81", false), "GET / HTTP/1.1");
    assert_eq!(request_line("http://a.b:81/c?d", true), "GET http://a.b:81/c?d HTTP/1.1");
    assert_eq!(request_line("HTTP://u@A.b", true), "GET http://u@A.b/ HTTP/1.1");
    assert_eq!(request_line("http://a.b?d", true), "GET http://a.b?d HTTP/1.1");
    assert_eq!(request_line("http://a.b?d", false), "GET / HTTP/1.1");
    let root = request_uri(&uri("http://a.b?d"), false);
    assert_eq!((root.text.as_str(), root.source.as_str()), ("/", "/"));
    assert_eq!(uri("http://a.b?d").source, "http://a.b?d");
    assert_eq!(uri("http://a.b?d").text, "http://a.b/?d");
}
