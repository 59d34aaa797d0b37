//! Settings, and the texts that they are read from.
use plumbrs::check::{check_options, check_schemes, select_client, OptionsError, Outcome};
use plumbrs::client::ClientType;
use plumbrs::options::{
    parse_http_method, parse_key_val, parse_secs, InvalidMethod, Options, SecondsError,
};
use plumbrs::sse::{extract_sse_data, SseReader};
use plumbrs::text;

fn options(uri: &str) -> Options {
    let mut opts = Options::default();
    opts.uri = vec![uri.to_string()];
    opts
}

fn refusal(opts: &Options) -> String {
    check_options(&mut opts.clone()).unwrap_err().message()
}

#[test]
fn durations_are_whole_seconds() {
    assert_eq!(parse_secs("30"), Ok(30_000_000_000));
    assert_eq!(parse_secs("+1"), Ok(1_000_000_000));
    assert_eq!(parse_secs(""), Err(SecondsError::Empty));
    assert_eq!(parse_secs("1.5"), Err(SecondsError::InvalidDigit));
    assert_eq!(parse_secs("-1"), Err(SecondsError::InvalidDigit));
    assert_eq!(parse_secs("18446744073709551616"), Err(SecondsError::TooLarge));
}

#[test]
fn headers_are_split_at_the_first_colon() {
    assert_eq!(
        parse_key_val("Content-Type:a:b"),
        Ok(("Content-Type".to_string(), "a:b".to_string()))
    );
    assert_eq!(
        parse_key_val("nothing"),
        Err("invalid argument (expected KEY:VALUE)".to_string())
    );
}

#[test]
fn methods_are_tokens() {
    assert_eq!(parse_http_method("DELETE"), Ok(Some("DELETE".to_string())));
    assert_eq!(parse_http_method("get"), Ok(Some("get".to_string())));
    assert_eq!(parse_http_method("GE T"), Err(InvalidMethod));
    assert_eq!(parse_http_method(""), Err(InvalidMethod));
    let tokens = "!#$%&'*+-.^_`|~0123456789abcdefghijklmnopqrstuvwxyzABCDEFGHIJKLMNOPQRSTUVWXYZ";
    for code in 0..=255u32 {
        let c = char::from_u32(code).unwrap();
        assert_eq!(parse_http_method(&c.to_string()).is_ok(), tokens.contains(c), "{code}");
    }
}

#[test]
fn settings_are_completed() {
    let mut opts = options("http://example.com/");
    assert_eq!(check_options(&mut opts).unwrap(), Outcome::Run { tls: false });
    assert_eq!(opts.method, Some("GET".to_string()));
    let mut opts = options("https://example.com/");
    opts.body = vec!["x".to_string()];
    assert_eq!(check_options(&mut opts).unwrap(), Outcome::Run { tls: true });
    assert_eq!(opts.method, Some("POST".to_string()));
    let mut opts = options("http://example.com/");
    opts.trailers = vec![("a".to_string(), "b".to_string())];
    assert_eq!(check_options(&mut opts).unwrap(), Outcome::Run { tls: false });
    assert_eq!(opts.client_type, ClientType::HyperChunked);
    assert_eq!(opts.body, vec![String::new()]);
    let again = opts.clone();
    check_options(&mut opts).unwrap();
    assert_eq!(opts.body, again.body);
    assert_eq!(opts.method, again.method);
    assert_eq!(opts.client_type, again.client_type);
}

#[test]
fn settings_that_do_not_go_together() {
    let mut opts = options("http://example.com/");
    opts.method = Some("TRACE".to_string());
    opts.body = vec!["x".to_string()];
    assert_eq!(refusal(&opts), "TRACE method cannot have a body!");
    let mut opts = options("http://example.com/");
    opts.mcp = true;
    opts.client_type = ClientType::Hyper;
    assert_eq!(refusal(&opts), "MCP not supported with this client!");
    let mut opts = options("http://example.com/");
    opts.trailers = vec![("a".to_string(), "b".to_string())];
    opts.client_type = ClientType::Hyper;
    assert_eq!(
        refusal(&opts),
        "Trailers are only supported with hyper-chunked or hyper-h2 clients!"
    );
    let mut opts = options("http://example.com/");
    opts.client_type = ClientType::TokioUring;
    opts.http2 = true;
    assert_eq!(refusal(&opts), "HTTP/2 not supported with tokio-uring client!");
    opts.http2 = false;
    opts.multithreaded = Some(2);
    assert_eq!(refusal(&opts), "Multithreaded runtime not supported with io-uring client!");
    opts.client_type = ClientType::Compio;
    assert_eq!(refusal(&opts), "Multithreaded runtime not supported with compio client!");
    opts.http2 = true;
    assert_eq!(refusal(&opts), "HTTP/2 not supported with compio client!");
    let mut opts = options("https://example.com/");
    opts.client_type = ClientType::Reqwest;
    opts.sni = Some("x".to_string());
    assert_eq!(refusal(&opts), "SNI option not available with reqwest client!");
    opts.sni = None;
    opts.absolute_uri = true;
    assert_eq!(refusal(&opts), "--absolute-uri is not available with this client!");
    assert_eq!(
        refusal(&options("ftp://example.com/")),
        "Unsupported URI scheme 'ftp' (expected http or https)"
    );
    let mut opts = options("https://example.com/");
    opts.client_type = ClientType::HyperLegacy;
    assert_eq!(refusal(&opts), "HTTPS is not supported with hyper-legacy client!");
    let mut opts = options("http://example.com/");
    opts.sni = Some("x".to_string());
    assert_eq!(refusal(&opts), "--sni requires an https:// URI");
    let mut opts = options("https://example.com/");
    opts.sni = Some(String::new());
    assert_eq!(refusal(&opts), "SNI server name cannot be empty");
    let mut opts = options("http://example.com/");
    opts.threads = 3;
    opts.multithreaded = Some(2);
    assert!(refusal(&opts).starts_with("The number of threads must be an exact multiple"));
}

#[test]
fn help_and_a_missing_uri() {
    let mut opts = Options::default();
    opts.client_type = ClientType::Help;
    assert_eq!(check_options(&mut opts).unwrap(), Outcome::Help);
    let mut opts = Options::default();
    assert_eq!(check_options(&mut opts).unwrap(), Outcome::MissingUri);
}

#[test]
fn schemes_are_compared_without_case() {
    let opts = options("HTTPS://example.com/");
    assert!(check_schemes(&vec![Some("HTTPS".to_string()), None], &opts).unwrap());
    assert!(matches!(
        check_schemes(&vec![Some("gopher".to_string())], &opts),
        Err(OptionsError::Scheme(s)) if s == "gopher"
    ));
}

#[test]
fn the_client_that_works() {
    let mut opts = Options::default();
    assert_eq!(select_client(&opts), ClientType::Hyper);
    opts.mcp_sse = true;
    assert_eq!(select_client(&opts), ClientType::HyperMcp);
    opts.client_type = ClientType::Compio;
    assert_eq!(select_client(&opts), ClientType::Compio);
    assert_eq!(ClientType::HyperRt1.name(), "hyper-rt1");
    assert!(ClientType::HyperH2.supports_https());
    assert!(!ClientType::Compio.supports_https());
}

#[test]
fn texts() {
    let v = text::chars_of(" a b\t");
    assert_eq!(text::string_of(text::trim(&v)), "a b");
    assert_eq!(text::string_of(text::trim_end(&v)), " a b");
    assert_eq!(text::words(&v).len(), 2);
    let lines = text::chars_of("a\r\nb\n\nc");
    let lines: Vec<String> = text::lines(&lines).iter().map(|l| text::string_of(l)).collect();
    assert_eq!(lines, vec!["a", "b", "", "c"]);
    for n in [0, 9, 10, 12345, u64::MAX] {
        let s = text::decimal_string(n);
        assert_eq!(s, n.to_string());
        assert_eq!(text::parse_unsigned(&text::chars_of(&s), u64::MAX), Some(n));
    }
    assert!(text::contains(&text::chars_of("abc"), &text::chars_of("bc")));
    assert!(text::contains_folded(&text::chars_of("aBc"), &text::chars_of("bc")));
}

#[test]
fn events_in_a_whole_response() {
    assert_eq!(
        extract_sse_data("event: message\ndata: {\"a\":\ndata:1}\n\n").unwrap(),
        "{\"a\":\n1}\n"
    );
    assert_eq!(
        extract_sse_data("event: message\n\n").unwrap_err(),
        "no data field found in SSE response"
    );
}

#[test]
fn events_in_a_stream() {
    let stream = ": hello\n\nevent: endpoint\ndata: /messages\n\nid: 1\ndata: a\r\ndata: b\n\ndata: c\n";
    let mut whole = SseReader::new();
    whole.feed(stream);
    assert_eq!(whole.read(), Some("/messages\n".to_string()));
    assert_eq!(whole.read(), Some("a\nb\n".to_string()));
    assert_eq!(whole.read(), None);
    let mut pieces = SseReader::new();
    let mut events = Vec::new();
    for c in stream.chars() {
        pieces.feed(&c.to_string());
        if let Some(e) = pieces.read() {
            events.push(e);
        }
    }
    assert_eq!(events, vec!["/messages\n".to_string(), "a\nb\n".to_string()]);
    pieces.feed("\n");
    assert_eq!(pieces.read(), Some("c\n".to_string()));
}

#[test]
fn refused_settings_are_filled_in_but_for_trace() {
    let mut opts = options("http://example.com/");
    opts.method = Some("TRACE".to_string());
    opts.body = vec!["x".to_string()];
    assert!(matches!(check_options(&mut opts), Err(OptionsError::TraceBody)));
    assert_eq!(opts.body, vec!["x".to_string()]);
    let mut opts = options("http://example.com/");
    opts.client_type = ClientType::Reqwest;
    opts.trailers = vec![("a".to_string(), "b".to_string())];
    assert!(matches!(check_options(&mut opts), Err(OptionsError::Trailers)));
    assert_eq!(opts.method, Some("POST".to_string()));
    assert_eq!(opts.body, vec![String::new()]);
    let mut opts = options("http://example.com/");
    opts.client_type = ClientType::Hyper;
    opts.mcp = true;
    assert!(matches!(check_options(&mut opts), Err(OptionsError::Mcp)));
    assert_eq!(opts.method, Some("GET".to_string()));
    let mut opts = options("ftp://example.com/");
    opts.trailers = vec![("a".to_string(), "b".to_string())];
    assert!(matches!(check_options(&mut opts), Err(OptionsError::Scheme(_))));
    assert_eq!(opts.client_type, ClientType::HyperChunked);
}
