//! Tool servers.
use plumbrs::client::ClientType;
use plumbrs::json::{Json, Num};
use plumbrs::mcp::sse_init;
use plumbrs::mcp::streamable;
use plumbrs::mcp::{
    call_headers, classify, encode_message, join_session, json_body, judge, plan_calls,
    session_headers, set_up, transport, Incoming, Message, RpcId,
};
use plumbrs::options::Options;
use plumbrs::request::prepare;
use plumbrs::schema::{
    compile_tool_bodies, create_tool_request, generate_primitive_value, generate_value_from_schema,
    generate_items, pick_variant, primitive_value, Tool,
};
use plumbrs::uri::parse_uri;

fn options(uri: &str) -> Options {
    let mut opts = Options::default();
    opts.uri = vec![uri.to_string()];
    opts
}

fn text(s: &str) -> Json {
    Json::Text(s.to_string())
}

fn number_of(n: i64) -> Json {
    Json::Number(Num::Int(n))
}

fn object(members: Vec<(&str, Json)>) -> Json {
    Json::Object(members.into_iter().map(|(k, v)| (k.to_string(), v)).collect())
}

fn message(m: Message) -> String {
    String::from_utf8(encode_message(&m, "0.1.0").unwrap()).unwrap()
}

const INIT_ANSWER: &str = "{\"jsonrpc\":\"2.0\",\"id\":1,\"result\":{\"protocolVersion\":\"2025-06-18\",\"capabilities\":{},\"serverInfo\":{\"name\":\"s\",\"version\":\"1\"}}}";

const TOOLS_ANSWER: &str = "{\"jsonrpc\":\"2.0\",\"id\":2,\"result\":{\"tools\":[{\"name\":\"sum\",\"inputSchema\":{\"type\":\"object\",\"required\":[\"a\",\"b\"],\"properties\":{\"a\":{\"default\":[null,true,-3,18446744073709551615,0.5,\"x\",{\"y\":1}]},\"b\":{\"const\":\"z\"}}}},{\"name\":\"echo\",\"inputSchema\":{\"type\":\"object\"}}]}}";

#[test]
fn messages_are_json_rpc() {
    let init = message(Message::Initialize);
    assert!(init.contains("\"jsonrpc\":\"2.0\""));
    assert!(init.contains("\"method\":\"initialize\""));
    assert!(init.contains("\"id\":1"));
    assert!(init.contains("\"name\":\"plumbrs\""));
    assert!(init.contains("\"version\":\"0.1.0\""));
    let done = message(Message::Initialized);
    assert_eq!(done, "{\"jsonrpc\":\"2.0\",\"method\":\"notifications/initialized\"}");
    let list = message(Message::ToolsList);
    assert_eq!(
        list,
        "{\"jsonrpc\":\"2.0\",\"id\":2,\"method\":\"tools/list\",\"params\":{}}"
    );
    let refused = message(Message::RootsRefused(RpcId::Text("x7".to_string())));
    assert!(refused.contains("\"id\":\"x7\""));
    assert!(refused.contains("-32601"));
    assert!(refused.contains("roots/list is not supported (removed by SEP-2577)"));
    assert!(message(Message::RootsRefused(RpcId::Number(9))).contains("\"id\":9"));
}

#[test]
fn incoming_messages_are_told_apart() {
    assert!(matches!(classify("{\"id\":2,\"result\":{}}"), Incoming::Answer));
    assert!(matches!(classify("no json at all"), Incoming::Answer));
    assert!(matches!(classify("\"method\" but no json"), Incoming::Other));
    assert!(matches!(
        classify("{\"id\":5,\"method\":\"roots/list\"}"),
        Incoming::Roots(RpcId::Number(5))
    ));
    assert!(matches!(
        classify("{\"id\":\"a\",\"method\":\"roots/list\"}"),
        Incoming::Roots(RpcId::Text(t)) if t == "a"
    ));
    assert!(matches!(
        classify("{\"id\":null,\"method\":\"roots/list\"}"),
        Incoming::Roots(RpcId::Number(0))
    ));
    assert!(matches!(classify("{\"method\":\"roots/list\"}"), Incoming::Other));
    assert!(matches!(classify("{\"id\":5,\"method\":\"ping\"}"), Incoming::Other));
    assert!(matches!(
        classify("{\"id\":5,\"result\":{\"x\":{\"method\":1}}}"),
        Incoming::Answer
    ));
    assert!(matches!(judge(&None), Incoming::Other));
    assert!(matches!(judge(&Some(Json::Null)), Incoming::Answer));
    let roots = |id: Json| Some(object(vec![("method", text("roots/list")), ("id", id)]));
    assert!(matches!(judge(&roots(Json::Bool(true))), Incoming::Roots(RpcId::Number(0))));
    assert!(matches!(judge(&roots(number_of(-7))), Incoming::Roots(RpcId::Number(-7))));
    let big = Json::Number(Num::Big(9223372036854775808));
    assert!(matches!(judge(&roots(big)), Incoming::Roots(RpcId::Number(0))));
    assert!(matches!(
        classify("{\"id\":9223372036854775808,\"method\":\"roots/list\"}"),
        Incoming::Roots(RpcId::Number(0))
    ));
    assert!(matches!(classify("[\"method\"]"), Incoming::Answer));
    assert!(matches!(
        judge(&Some(object(vec![("method", number_of(1)), ("id", number_of(2))]))),
        Incoming::Other
    ));
}

#[test]
fn answers_may_come_as_events() {
    let json = json_body(&Some("application/json".to_string()), b"{}".to_vec()).unwrap();
    assert_eq!(json, b"{}".to_vec());
    let events = Some("text/event-stream; charset=utf-8".to_string());
    let json = json_body(&events, b"data: {\"a\":1}\n\n".to_vec()).unwrap();
    assert_eq!(json, b"{\"a\":1}\n".to_vec());
    let json = json_body(&events, b"data: \xff\n\n".to_vec()).unwrap();
    assert_eq!(json, "\u{fffd}\n".as_bytes().to_vec());
    assert_eq!(
        json_body(&events, b"x".to_vec()).unwrap_err(),
        "no data field found in SSE response"
    );
    assert_eq!(json_body(&None, b"x".to_vec()).unwrap(), b"x".to_vec());
}

#[test]
fn calls_send_and_accept_json() {
    let mut opts = options("http://localhost:3001/mcp");
    let plan = prepare(0, ClientType::HyperMcp, &opts).unwrap();
    assert_eq!(transport(&opts), "streamableHttp");
    let h = call_headers(&plan.headers, false);
    assert_eq!(h.get("content-type").unwrap(), "application/json");
    assert_eq!(h.get("accept").unwrap(), "application/json, text/event-stream");
    let h = call_headers(&plan.headers, true);
    assert_eq!(h.get("accept").unwrap(), "application/json");
    let s = session_headers(&h, &Some("abc".to_string())).unwrap();
    assert_eq!(s.get("mcp-session-id").unwrap(), "abc");
    assert!(session_headers(&h, &None).unwrap().get("mcp-session-id").is_none());
    assert_eq!(
        session_headers(&h, &Some("a\nb".to_string())).unwrap_err(),
        "failed to parse header value"
    );
    opts.mcp_sse = true;
    assert_eq!(transport(&opts), "sse");
}

#[test]
fn a_server_that_has_moved_is_followed() {
    let mut opts = options("http://localhost:3001/sse");
    opts.mcp_sse = true;
    let plan = prepare(0, ClientType::HyperMcp, &opts).unwrap();
    let moved = parse_uri("http://other:4000/messages?x=1").unwrap();
    let calls = plan_calls(plan, moved.clone(), &opts);
    assert_eq!(calls.endpoint, "other:4000");
    assert_eq!(calls.target.text, "/messages?x=1");
    assert_eq!(calls.closing.get("connection").unwrap(), "close");
    let joined = join_session(&calls, &Some("abc".to_string())).unwrap();
    assert_eq!(joined.headers.get("mcp-session-id").unwrap(), "abc");
    assert_eq!(joined.closing.get("mcp-session-id").unwrap(), "abc");
    assert_eq!(joined.closing.get("connection").unwrap(), "close");
    assert_eq!(
        join_session(&joined, &Some("a\nb".to_string())).unwrap_err(),
        "invalid session id: failed to parse header value"
    );
    opts.host = Some("10.0.0.1".to_string());
    let plan = prepare(0, ClientType::HyperMcp, &opts).unwrap();
    assert_eq!(plan_calls(plan, moved, &opts).endpoint, "localhost:3001");
}

fn streamable_head(status: u16, session: Option<&str>) -> streamable::Event {
    streamable::Event::Head {
        status,
        session: session.map(String::from),
        content_type: None,
    }
}

#[test]
fn a_session_starts_with_responses() {
    let opts = options("http://localhost:3001/mcp");
    let u = parse_uri("http://localhost:3001/mcp").unwrap();
    let mut init = streamable::StreamableInit::new();
    let mut sent = Vec::new();
    let mut event = streamable::Event::Start;
    let setup = loop {
        match init.step(event, &u, "0.1.0", &opts) {
            streamable::Action::Post { body, session } => {
                sent.push((String::from_utf8(body).unwrap(), session));
                event = match init.stage() {
                    streamable::Stage::Initialize => streamable_head(200, Some("abc")),
                    streamable::Stage::Initialized => streamable_head(202, None),
                    _ => streamable_head(200, None),
                };
            }
            streamable::Action::ReadBody => {
                event = match init.stage() {
                    streamable::Stage::InitializeBody => {
                        streamable::Event::Body(INIT_ANSWER.as_bytes().to_vec())
                    }
                    streamable::Stage::InitializedBody => {
                        streamable::Event::Broken("gone".to_string())
                    }
                    _ => streamable::Event::Body(TOOLS_ANSWER.as_bytes().to_vec()),
                };
            }
            streamable::Action::Ready(m) => break m,
            streamable::Action::Fail(e) => panic!("{e}"),
        }
    };
    assert_eq!(init.stage(), streamable::Stage::Over);
    assert_eq!(sent.len(), 3);
    assert_eq!(sent[0].1, None);
    assert_eq!(sent[1].1, Some("abc".to_string()));
    assert_eq!(sent[2].1, Some("abc".to_string()));
    assert!(sent[1].0.contains("notifications/initialized"));
    assert_eq!(setup.session_id, Some("abc".to_string()));
    assert_eq!(setup.uri, u);
    assert_eq!(setup.tool_bodies.len(), 2);
    assert_eq!(setup.tool_bodies[0].id, 100);
    assert_eq!(setup.tool_bodies[0].name, "sum");
    assert_eq!(setup.tool_bodies[1].id, 101);
    assert_eq!(setup.tool_bodies[1].name, "echo");
    assert!(setup.tool_bodies[1].arguments.is_none());
    let arguments = setup.tool_bodies[0].arguments.as_ref().unwrap();
    let Some(Json::List(a)) = arguments.get("a") else {
        panic!("a list")
    };
    assert_eq!(
        a,
        &vec![
            Json::Null,
            Json::Bool(true),
            number_of(-3),
            Json::Number(Num::Big(18446744073709551615)),
            Json::Number(Num::Real(0.5f64.to_bits())),
            text("x"),
            object(vec![("y", number_of(1))]),
        ]
    );
    assert_eq!(arguments.get("b"), Some(&text("z")));
}

const NO_TOOLS: &str = "{\"jsonrpc\":\"2.0\",\"id\":2,\"result\":{\"tools\":[]}}";

fn streamable_failure(events: Vec<streamable::Event>) -> String {
    let opts = options("http://localhost:3001/mcp");
    let u = parse_uri("http://localhost:3001/mcp").unwrap();
    let mut init = streamable::StreamableInit::new();
    for event in events {
        if let streamable::Action::Fail(e) = init.step(event, &u, "0.1.0", &opts) {
            return e;
        }
    }
    panic!("it has not failed");
}

#[test]
fn a_session_that_cannot_start_with_responses() {
    let start = || streamable::Event::Start;
    let body = || streamable::Event::Body(INIT_ANSWER.as_bytes().to_vec());
    let e = streamable_failure(vec![start(), streamable::Event::NotReady("x".to_string())]);
    assert_eq!(e, "initialize: sender not ready: x");
    let e = streamable_failure(vec![start(), streamable::Event::Failed("x".to_string())]);
    assert_eq!(e, "initialize failed: x");
    let e = streamable_failure(vec![start(), streamable_head(404, None)]);
    assert_eq!(e, "initialize request failed with status: 404 Not Found");
    let e = streamable_failure(vec![
        start(),
        streamable_head(200, None),
        streamable::Event::Broken("x".to_string()),
    ]);
    assert_eq!(e, "failed to read initialize response body: x");
    let e = streamable_failure(vec![
        start(),
        streamable_head(200, None),
        streamable::Event::Body(b"{}".to_vec()),
    ]);
    assert!(e.starts_with("failed to parse initialize response: "));
    let e = streamable_failure(vec![start(), streamable_head(200, Some("a\nb")), body()]);
    assert_eq!(e, "failed to parse header value");
    let e = streamable_failure(vec![
        start(),
        streamable_head(200, None),
        body(),
        streamable_head(500, None),
    ]);
    assert_eq!(e, "initialized notification failed with status: 500 Internal Server Error");
    let listed = || {
        vec![
            start(),
            streamable_head(200, None),
            body(),
            streamable_head(204, None),
            streamable::Event::Body(vec![]),
        ]
    };
    let mut events = listed();
    events.push(streamable_head(202, None));
    assert_eq!(
        streamable_failure(events),
        "tools/list request failed with status: 202 Accepted"
    );
    let mut events = listed();
    events.push(streamable_head(200, None));
    events.push(streamable::Event::Body(b"{}".to_vec()));
    assert!(streamable_failure(events).starts_with("failed to parse tools/list response: "));
    let mut events = listed();
    events.push(streamable_head(200, None));
    events.push(streamable::Event::Body(NO_TOOLS.as_bytes().to_vec()));
    assert_eq!(streamable_failure(events), "no tools available from MCP server");
}

#[test]
fn a_session_starts_with_events() {
    let mut opts = options("http://localhost:3001/sse");
    opts.mcp_sse = true;
    let mut init = sse_init::SseInit::new("http://localhost:3001/sse");
    let mut sent = Vec::new();
    let stream = format!(
        "event: endpoint\ndata: /messages?id=7\n\ndata: {INIT_ANSWER}\n\n\
         data: {{\"id\":1,\"method\":\"ping\"}}\n\ndata: {{\"id\":4,\"method\":\"roots/list\"}}\n\n\
         data: {TOOLS_ANSWER}\n\n"
    );
    let mut pieces = stream.as_bytes().chunks(50);
    let mut event = sse_init::Event::Start;
    let setup = loop {
        event = match init.step(event, "0.1.0", &opts) {
            sse_init::Action::ConnectStream | sse_init::Action::ConnectRequests => {
                sse_init::Event::Connected
            }
            sse_init::Action::Get => sse_init::Event::Answered,
            sse_init::Action::Read => sse_init::Event::Piece(pieces.next().unwrap().to_vec()),
            sse_init::Action::Post(body) => {
                assert_eq!(
                    init.place().unwrap().text,
                    "http://localhost:3001/messages?id=7"
                );
                sent.push(String::from_utf8(body).unwrap());
                sse_init::Event::Answered
            }
            sse_init::Action::Ready(m) => break m,
            sse_init::Action::Fail(e) => panic!("{e}"),
        };
    };
    assert_eq!(sent.len(), 4);
    assert!(sent[0].contains("initialize"));
    assert!(sent[2].contains("tools/list"));
    assert!(sent[3].contains("-32601"));
    assert!(sent[3].contains("\"id\":4"));
    assert_eq!(setup.uri.text, "http://localhost:3001/messages?id=7");
    assert_eq!(setup.session_id, None);
    let names: Vec<&str> = setup.tool_bodies.iter().map(|c| c.name.as_str()).collect();
    assert_eq!(names, vec!["sum", "echo"]);
}

fn sse_failure(events: Vec<sse_init::Event>) -> String {
    let mut opts = options("http://localhost:3001/sse");
    opts.mcp_sse = true;
    let mut init = sse_init::SseInit::new("http://localhost:3001/sse");
    for event in events {
        if let sse_init::Action::Fail(e) = init.step(event, "0.1.0", &opts) {
            assert_eq!(init.stage(), sse_init::Stage::Over);
            return e;
        }
    }
    panic!("it has not failed");
}

fn sse_piece(s: &str) -> sse_init::Event {
    sse_init::Event::Piece(s.as_bytes().to_vec())
}

#[test]
fn a_session_that_cannot_start_with_events() {
    let said = |s: &str| s.to_string();
    let begun = || {
        vec![
            sse_init::Event::Start,
            sse_init::Event::Connected,
            sse_init::Event::Answered,
        ]
    };
    let with = |mut list: Vec<sse_init::Event>, more: Vec<sse_init::Event>| {
        list.extend(more);
        list
    };
    let e = sse_failure(vec![sse_init::Event::Start, sse_init::Event::NotConnected]);
    assert_eq!(e, "SSE connection failed");
    let e = sse_failure(vec![
        sse_init::Event::Start,
        sse_init::Event::Connected,
        sse_init::Event::Failed(said("x")),
    ]);
    assert_eq!(e, "SSE handshake request failed: x");
    let e = sse_failure(with(begun(), vec![sse_init::Event::End]));
    assert_eq!(e, "failed to read SSE handshake event: SSE stream ended");
    let e = sse_failure(with(begun(), vec![sse_init::Event::Broken(said("x"))]));
    assert_eq!(e, "failed to read SSE handshake event: SSE read error: x");
    let e = sse_failure(with(begun(), vec![sse_piece("data: \n\n")]));
    assert_eq!(e, "could not find endpoint in SSE handshake");
    let e = sse_failure(with(begun(), vec![sse_piece("data: http://a b/\n\n")]));
    assert!(e.starts_with("invalid uri from SSE: "));
    let placed = || with(begun(), vec![sse_piece("data: /m\n\n")]);
    let e = sse_failure(with(placed(), vec![sse_init::Event::NotConnected]));
    assert_eq!(e, "POST connection failed");
    let connected = || with(placed(), vec![sse_init::Event::Connected]);
    let e = sse_failure(with(connected(), vec![sse_init::Event::NotReady(said("x"))]));
    assert_eq!(e, "POST request failed: POST: sender not ready: x");
    let e = sse_failure(with(connected(), vec![sse_init::Event::Failed(said("x"))]));
    assert_eq!(e, "POST request failed: POST failed: x");
    let asked = || with(connected(), vec![sse_init::Event::Answered]);
    let e = sse_failure(with(asked(), vec![sse_init::Event::End]));
    assert_eq!(e, "failed to read initialize response: SSE stream ended");
    let e = sse_failure(with(asked(), vec![sse_piece("data: {}\n\n")]));
    assert!(e.starts_with("failed to parse initialize response: "));
    let answer = format!("data: {INIT_ANSWER}\n\n");
    let listed = || {
        with(
            asked(),
            vec![
                sse_piece(&answer),
                sse_init::Event::Answered,
                sse_init::Event::Answered,
            ],
        )
    };
    let e = sse_failure(with(listed(), vec![sse_init::Event::End]));
    assert_eq!(e, "failed to read SSE event (tools/list): SSE stream ended");
    let e = sse_failure(with(listed(), vec![sse_piece("data: {}\n\n")]));
    assert!(e.starts_with("failed to parse tools/list response: "));
    let empty = format!("data: {NO_TOOLS}\n\n");
    let e = sse_failure(with(listed(), vec![sse_piece(&empty)]));
    assert_eq!(e, "no tools available from MCP server");
}

#[test]
fn where_a_stream_is() {
    let opts = options("http://localhost:3001/sse");
    let p = sse_init::locate_stream("http://localhost:3001/sse?x=1", &opts).unwrap();
    assert_eq!(p.endpoint, "localhost:3001");
    assert_eq!(p.target.text, "/sse?x=1");
    assert_eq!(p.server_name, None);
    assert_eq!(sse_init::locate_stream("/sse", &opts).unwrap_err(), "no host in uri");
    assert!(sse_init::locate_stream("http://a b/", &opts)
        .unwrap_err()
        .starts_with("invalid base uri: "));
    assert_eq!(
        sse_init::locate(Err("x".to_string()), &opts).unwrap_err(),
        "invalid base uri: x"
    );
}

#[test]
fn values_are_drawn_from_schemas() {
    let mut opts = Options::default();
    opts.mcp_rand_string_len = Some(7);
    for _ in 0..50 {
        match generate_value_from_schema(&object(vec![("type", text("string"))]), &opts, 0) {
            Json::Text(s) => {
                assert_eq!(s.len(), 7);
                assert!(s.chars().all(|c| c.is_ascii_alphanumeric()));
            }
            _ => panic!("a text"),
        }
        let schema = object(vec![
            ("type", text("integer")),
            ("minimum", number_of(3)),
            ("maximum", number_of(6)),
        ]);
        match generate_value_from_schema(&schema, &opts, 0) {
            Json::Number(Num::Int(n)) => assert!((3..6).contains(&n)),
            _ => panic!("an integer"),
        }
        match generate_value_from_schema(&object(vec![("type", text("array"))]), &opts, 0) {
            Json::List(items) => assert!((1..4).contains(&items.len())),
            _ => panic!("a list"),
        }
        assert!(!matches!(generate_primitive_value(), Json::Object(_)));
    }
    let schema = object(vec![("default", number_of(4)), ("type", text("string"))]);
    assert!(matches!(
        generate_value_from_schema(&schema, &opts, 0),
        Json::Number(Num::Int(4))
    ));
    assert!(matches!(generate_value_from_schema(&schema, &opts, 10), Json::Null));
    let variants = object(vec![("enum", Json::List(vec![text("a"), text("a")]))]);
    assert!(matches!(
        generate_value_from_schema(&variants, &opts, 0),
        Json::Text(s) if s == "a"
    ));
    let number = object(vec![("type", text("number")), ("minimum", number_of(1))]);
    assert!(matches!(
        generate_value_from_schema(&number, &opts, 0),
        Json::Draw(Some(Num::Int(1)), None)
    ));
    let flag = object(vec![("type", Json::List(vec![text("null"), text("boolean")]))]);
    assert!(matches!(generate_value_from_schema(&flag, &opts, 0), Json::Bool(_)));
    opts.mcp_rand_string_len = None;
    for _ in 0..50 {
        match generate_value_from_schema(&object(vec![]), &opts, 0) {
            Json::Text(s) => assert!((5..20).contains(&s.len())),
            _ => panic!("a text"),
        }
    }
}

#[test]
fn arguments_are_those_that_are_required() {
    let opts = Options::default();
    let schema = object(vec![
        ("required", Json::List(vec![text("a")])),
        (
            "properties",
            object(vec![
                ("a", object(vec![("const", number_of(1))])),
                ("b", object(vec![("const", number_of(2))])),
            ]),
        ),
    ]);
    match create_tool_request(&schema, &opts) {
        Some(Json::Object(members)) => {
            assert_eq!(members.len(), 1);
            assert_eq!(members[0].0, "a");
            assert!(matches!(members[0].1, Json::Number(Num::Int(1))));
        }
        _ => panic!("arguments"),
    }
    assert!(create_tool_request(&object(vec![]), &opts).is_none());
    let unknown = object(vec![
        ("required", Json::List(vec![text("a")])),
        ("properties", object(vec![])),
    ]);
    assert!(create_tool_request(&unknown, &opts).is_none());
    let tools = vec![
        Tool { name: "x".to_string(), schema },
        Tool { name: "y".to_string(), schema: object(vec![]) },
    ];
    let calls = compile_tool_bodies(&tools, &opts);
    assert_eq!(calls[0].id, 100);
    assert_eq!(calls[1].id, 101);
    assert!(calls[0].arguments.is_some());
    assert!(calls[1].arguments.is_none());
    assert!(matches!(
        calls[0].arguments.as_ref().unwrap().get("a"),
        Some(Json::Number(Num::Int(1)))
    ));
}

#[test]
fn primitive_values_are_made_of_their_draws() {
    assert!(matches!(primitive_value(0, 7, true), Json::Text(t) if t == "sample"));
    assert!(matches!(primitive_value(1, -100, true), Json::Number(Num::Int(-100))));
    assert!(matches!(primitive_value(2, 99, false), Json::Number(Num::Int(99))));
    assert!(matches!(primitive_value(3, 7, true), Json::Bool(true)));
    assert!(matches!(primitive_value(3, 7, false), Json::Bool(false)));
    for _ in 0..1000 {
        match generate_primitive_value() {
            Json::Text(t) => assert_eq!(t, "sample"),
            Json::Number(Num::Int(n)) => assert!((-100..100).contains(&n)),
            Json::Bool(_) => {}
            _ => panic!("no primitive value"),
        }
    }
}

#[test]
fn variants_and_items_follow_their_draws() {
    let variants = vec![text("a"), number_of(2), Json::Bool(true)];
    assert!(matches!(pick_variant(&variants, 0), Json::Text(t) if t == "a"));
    assert!(matches!(pick_variant(&variants, 1), Json::Number(Num::Int(2))));
    assert!(matches!(pick_variant(&variants, 2), Json::Bool(true)));
    let opts = options("http://example.com/");
    let schema = object(vec![("const", number_of(5))]);
    for n in 0..4 {
        let items = generate_items(Some(&schema), n, &opts, 1);
        assert_eq!(items.len(), n);
        assert!(items.iter().all(|v| matches!(v, Json::Number(Num::Int(5)))));
        assert_eq!(generate_items(None, n, &opts, 1).len(), n);
    }
    assert!(matches!(generate_items(Some(&schema), 1, &opts, 10)[0], Json::Null));
    let choices = object(vec![("enum", Json::List(variants))]);
    let mut seen = [false; 3];
    for _ in 0..1000 {
        match generate_value_from_schema(&choices, &opts, 0) {
            Json::Text(_) => seen[0] = true,
            Json::Number(_) => seen[1] = true,
            Json::Bool(_) => seen[2] = true,
            _ => panic!("no variant"),
        }
    }
    assert_eq!(seen, [true; 3]);
}

#[test]
fn sessions_are_set_up_with_the_tools_listed() {
    let opts = options("http://localhost:3001/mcp");
    let u = parse_uri("http://localhost:3001/mcp").unwrap();
    let session = Some("s".to_string());
    let tools = vec![
        Tool { name: "b".to_string(), schema: object(vec![]) },
        Tool { name: "a".to_string(), schema: object(vec![]) },
    ];
    let m = set_up(Ok(tools), &u, &session, &opts).unwrap();
    let calls: Vec<(&str, i64)> = m.tool_bodies.iter().map(|c| (c.name.as_str(), c.id)).collect();
    assert_eq!(calls, vec![("b", 100), ("a", 101)]);
    assert_eq!(m.uri, u);
    assert_eq!(m.session_id, session);
    assert_eq!(
        set_up(Ok(vec![]), &u, &None, &opts).unwrap_err(),
        "no tools available from MCP server"
    );
    assert_eq!(
        set_up(Err("x".to_string()), &u, &None, &opts).unwrap_err(),
        "failed to parse tools/list response: x"
    );
}
