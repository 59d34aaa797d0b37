//! Talking to tool servers: the messages of the Model Context Protocol, the
//! headers that carry them, and what is asked in which order before tools can be
//! called.
use crate::headers;
use crate::json;
use crate::json::{Json, JsonView, Num};
use crate::options::Options;
use crate::request::Plan;
use crate::schema;
use crate::schema::{Tool, ToolCall, ToolView};
use crate::sse;
use crate::text;
use crate::uri;
use crate::uri::Uri;
use vstd::prelude::*;

pub mod sse_init;
pub mod streamable;

verus! {

// ---------------------------------------------------------------------------
// Messages
// ---------------------------------------------------------------------------

/// The number or the text by which a request and its answer find each other.
#[derive(Clone, Debug, PartialEq, Eq)]
pub enum RpcId {
    Number(i64),
    Text(String),
}

/// `RpcId`, as mathematical values.
pub enum RpcIdView {
    Number(i64),
    Text(Seq<char>),
}

impl View for RpcId {
    type V = RpcIdView;

    open spec fn view(&self) -> RpcIdView {
        match *self {
            RpcId::Number(n) => RpcIdView::Number(n),
            RpcId::Text(s) => RpcIdView::Text(s@),
        }
    }
}

/// A message to a tool server.
#[derive(Clone, Debug)]
pub enum Message {
    /// The request that starts a session.
    Initialize,
    /// The notification that the session has started.
    Initialized,
    /// The request for the tools.
    ToolsList,
    /// The refusal to list roots.
    RootsRefused(RpcId),
}

/// Bytes, or the complaint that there are none, as `want` describes them.
pub open spec fn same_bytes(r: Result<Vec<u8>, String>, want: Result<Seq<u8>, Seq<char>>) -> bool {
    match (r, want) {
        (Ok(a), Ok(b)) => a@ == b,
        (Err(a), Err(b)) => a@ == b,
        _ => false,
    }
}

/// The bytes of an `initialize` request, as `rmcp` and `serde_json` write them.
pub uninterp spec fn initialize_bytes(name: Seq<char>, version: Seq<char>, id: i64) -> Result<
    Seq<u8>,
    Seq<char>,
>;

/// `serde_json::to_vec` of an `rmcp` `JsonRpcRequest` with an `InitializeRequest`
/// that announces no capabilities. The result depends on the arguments alone.
#[verifier::external_body]
fn write_initialize(name: &str, version: &str, id: i64) -> (r: Result<Vec<u8>, String>)
    ensures
        same_bytes(r, initialize_bytes(name@, version@, id)),
{
    let params = rmcp::model::InitializeRequestParams::new(
        rmcp::model::ClientCapabilities::builder().build(),
        rmcp::model::Implementation::new(name.to_string(), version.to_string()),
    );
    let request = rmcp::model::InitializeRequest::new(params);
    let id = rmcp::model::NumberOrString::Number(id);
    rmcp::serde_json::to_vec(&rmcp::model::JsonRpcRequest::new(id, request)).map_err(
        |e| e.to_string(),
    )
}

/// The bytes of a request for the tools.
pub open spec fn tools_list_bytes(id: u32) -> Seq<u8> {
    headers::bytes_of(
        "{\"jsonrpc\":\"2.0\",\"id\":"@ + text::decimal(id as nat)
            + ",\"method\":\"tools/list\",\"params\":{}}"@,
    )
}

/// `serde_json::to_vec` of an `rmcp` `JsonRpcRequest` with a `ListToolsRequest`: an
/// object with the version of the protocol, the number, the method and no
/// parameters, which can always be written.
#[verifier::external_body]
fn write_tools_list(id: u32) -> (r: Result<Vec<u8>, String>)
    ensures
        same_bytes(r, Ok(tools_list_bytes(id))),
{
    let request = rmcp::model::ListToolsRequest::default();
    let id = rmcp::model::NumberOrString::Number(id.into());
    rmcp::serde_json::to_vec(&rmcp::model::JsonRpcRequest::new(id, request)).map_err(
        |e| e.to_string(),
    )
}

/// The bytes of the notification that a session has started.
pub open spec fn initialized_bytes() -> Seq<u8> {
    headers::bytes_of("{\"jsonrpc\":\"2.0\",\"method\":\"notifications/initialized\"}"@)
}

/// `serde_json::to_vec` of an `rmcp` `JsonRpcNotification` with an
/// `InitializedNotification`: an object with the version of the protocol and the
/// method, which can always be written.
#[verifier::external_body]
fn write_initialized() -> (r: Result<Vec<u8>, String>)
    ensures
        same_bytes(r, Ok(initialized_bytes())),
{
    let message = rmcp::model::JsonRpcNotification {
        jsonrpc: Default::default(),
        notification: rmcp::model::InitializedNotification::default(),
    };
    rmcp::serde_json::to_vec(&message).map_err(|e| e.to_string())
}

/// The bytes of an error, as `rmcp` and `serde_json` write them.
pub uninterp spec fn error_bytes(id: RpcIdView, code: i32, message: Seq<char>) -> Result<
    Seq<u8>,
    Seq<char>,
>;

/// `serde_json::to_vec` of an `rmcp` `JsonRpcError` without data. The result
/// depends on the arguments alone.
#[verifier::external_body]
fn write_error(id: &RpcId, code: i32, message: &str) -> (r: Result<Vec<u8>, String>)
    ensures
        same_bytes(r, error_bytes(id@, code, message@)),
{
    let id = match id {
        RpcId::Number(n) => rmcp::model::NumberOrString::Number(*n),
        RpcId::Text(s) => rmcp::model::NumberOrString::String(s.as_str().into()),
    };
    let code = rmcp::model::ErrorCode(code);
    let error = rmcp::model::ErrorData::new(code, message.to_string(), None);
    rmcp::serde_json::to_vec(&rmcp::model::JsonRpcError::new(Some(id), error)).map_err(
        |e| e.to_string(),
    )
}

/// The number of the request that starts a session.
pub const INITIALIZE_ID: i64 = 1;

/// The number of the request for the tools.
pub const TOOLS_LIST_ID: u32 = 2;

/// The code of the error that a method is not known.
pub const METHOD_NOT_FOUND: i32 = -32601;

/// The bytes of a message. `version` is that of this program.
pub open spec fn message_bytes(m: Message, version: Seq<char>) -> Result<Seq<u8>, Seq<char>> {
    match m {
        Message::Initialize => initialize_bytes("plumbrs"@, version, INITIALIZE_ID),
        Message::Initialized => Ok(initialized_bytes()),
        Message::ToolsList => Ok(tools_list_bytes(TOOLS_LIST_ID)),
        Message::RootsRefused(id) => refusal_bytes(id@),
    }
}

/// The bytes of the refusal to list roots.
pub open spec fn refusal_bytes(id: RpcIdView) -> Result<Seq<u8>, Seq<char>> {
    error_bytes(id, METHOD_NOT_FOUND, "roots/list is not supported (removed by SEP-2577)"@)
}

/// The bytes of a message. `version` is that of this program.
pub fn encode_message(m: &Message, version: &str) -> (r: Result<Vec<u8>, String>)
    ensures
        same_bytes(r, message_bytes(*m, version@)),
{
    match m {
        Message::Initialize => write_initialize("plumbrs", version, INITIALIZE_ID),
        Message::Initialized => write_initialized(),
        Message::ToolsList => write_tools_list(TOOLS_LIST_ID),
        Message::RootsRefused(id) => write_error(
            id,
            METHOD_NOT_FOUND,
            "roots/list is not supported (removed by SEP-2577)",
        ),
    }
}

// ---------------------------------------------------------------------------
// Answers
// ---------------------------------------------------------------------------

/// What `serde_json` says against the answer to an `initialize` request, if
/// anything.
pub uninterp spec fn initialize_fault(body: Seq<u8>) -> Option<Seq<char>>;

/// `serde_json::from_slice` of an `rmcp` `JsonRpcResponse` with an
/// `InitializeResult`: why the bytes are none, if they are none. The result depends
/// on the bytes alone.
#[verifier::external_body]
pub(crate) fn read_initialize(body: &[u8]) -> (r: Option<String>)
    ensures
        uri::opt_text(r) == initialize_fault(body@),
{
    let parsed: Result<
        rmcp::model::JsonRpcResponse<rmcp::model::InitializeResult>,
        rmcp::serde_json::Error,
    > = rmcp::serde_json::from_slice(body);
    match parsed {
        Ok(_) => None,
        Err(e) => Some(e.to_string()),
    }
}

/// What a message of a server is, while the list of tools is waited for.
#[derive(Clone, Debug)]
pub enum Incoming {
    /// The answer that is waited for.
    Answer,
    /// A request for roots, which is to be refused.
    Roots(RpcId),
    /// Something that does not matter.
    Other,
}

/// `Incoming`, as mathematical values.
pub enum IncomingView {
    Answer,
    Roots(RpcIdView),
    Other,
}

impl View for Incoming {
    type V = IncomingView;

    open spec fn view(&self) -> IncomingView {
        match *self {
            Incoming::Answer => IncomingView::Answer,
            Incoming::Roots(id) => IncomingView::Roots(id@),
            Incoming::Other => IncomingView::Other,
        }
    }
}

/// The number or the text that a member is. One that is neither counts as 0.
pub open spec fn id_in(v: JsonView) -> RpcIdView {
    match v {
        JsonView::Number(Num::Int(n)) => RpcIdView::Number(n),
        JsonView::Text(t) => RpcIdView::Text(t),
        _ => RpcIdView::Number(0),
    }
}

/// What a message is by its members: an answer has no `method`, and a request for
/// roots, which has an `id`, is to be refused. A message that is no JSON does not
/// matter.
pub open spec fn judged(message: Option<JsonView>) -> IncomingView {
    match message {
        None => IncomingView::Other,
        Some(v) => match (json::member(v, "method"@), json::member(v, "id"@)) {
            (None, _) => IncomingView::Answer,
            (Some(m), Some(id)) => if m == JsonView::Text("roots/list"@) {
                IncomingView::Roots(id_in(id))
            } else {
                IncomingView::Other
            },
            (Some(_), None) => IncomingView::Other,
        },
    }
}

/// What a message is. One in which the word `"method"` does not stand is an
/// answer, whatever else it is.
pub open spec fn classified(data: Seq<char>) -> IncomingView {
    if text::holds(data, "\"method\""@) {
        judged(json::parsed_json(data))
    } else {
        IncomingView::Answer
    }
}

/// Tells what a message is by its members.
pub fn judge(message: &Option<Json>) -> (m: Incoming)
    ensures
        m@ == judged(json::value_in(*message)),
{
    let v = match message {
        Some(v) => v,
        None => {
            return Incoming::Other;
        },
    };
    let roots: bool = match v.get("method") {
        Some(Json::Text(s)) => text::same_str(s.as_str(), "roots/list"),
        Some(_) => false,
        None => {
            return Incoming::Answer;
        },
    };
    match v.get("id") {
        Some(id) => if roots {
            Incoming::Roots(
                match id {
                    Json::Number(Num::Int(n)) => RpcId::Number(*n),
                    Json::Text(s) => RpcId::Text(s.clone()),
                    _ => RpcId::Number(0),
                },
            )
        } else {
            Incoming::Other
        },
        None => Incoming::Other,
    }
}

/// Tells what a message is.
pub fn classify(data: &str) -> (m: Incoming)
    ensures
        m@ == classified(data@),
{
    let v = text::chars_of(data);
    let word = text::chars_of("\"method\"");
    if !text::contains(v.as_slice(), word.as_slice()) {
        return Incoming::Answer;
    }
    judge(&json::read_json(data))
}

/// What `String::from_utf8_lossy` makes of bytes.
pub uninterp spec fn lossy_text(bytes: Seq<u8>) -> Seq<char>;

/// `String::from_utf8_lossy`: the text that the bytes encode, where they are UTF-8.
/// The result depends on the bytes alone.
#[verifier::external_body]
pub(crate) fn lossy(bytes: &[u8]) -> (s: String)
    ensures
        s@ == lossy_text(bytes@),
        vstd::utf8::valid_utf8(bytes@) ==> s@ == vstd::utf8::decode_utf8(bytes@),
{
    String::from_utf8_lossy(bytes).into_owned()
}

/// Whether a response is in the form of events.
pub open spec fn is_event_stream(content_type: Option<Seq<char>>) -> bool {
    content_type matches Some(t) && text::holds(t, "text/event-stream"@)
}

/// The JSON in a response: the data of its events, where it is in their form.
pub open spec fn json_in(content_type: Option<Seq<char>>, body: Seq<u8>) -> Result<
    Seq<u8>,
    Seq<char>,
> {
    if is_event_stream(content_type) {
        let lines = text::lines_of(lossy_text(body));
        if sse::has_data(lines) {
            Ok(headers::bytes_of(sse::data_of(lines)))
        } else {
            Err("no data field found in SSE response"@)
        }
    } else {
        Ok(body)
    }
}

/// The JSON in a response.
pub fn json_body(content_type: &Option<String>, body: Vec<u8>) -> (r: Result<Vec<u8>, String>)
    ensures
        same_bytes(r, json_in(uri::opt_text(*content_type), body@)),
{
    let events: bool = match content_type {
        Some(t) => {
            let v = text::chars_of(t.as_str());
            let word = text::chars_of("text/event-stream");
            text::contains(v.as_slice(), word.as_slice())
        },
        None => false,
    };
    if !events {
        return Ok(body);
    }
    let whole = lossy(body.as_slice());
    match sse::extract_sse_data(whole.as_str()) {
        Ok(data) => Ok(vstd::slice::slice_to_vec(data.as_str().as_bytes())),
        Err(e) => Err(e),
    }
}

// ---------------------------------------------------------------------------
// Status codes
// ---------------------------------------------------------------------------

/// How `http` displays a status code.
pub uninterp spec fn status_display(code: u16) -> Seq<char>;

/// The text that an `http::StatusCode` displays. It depends on the code alone.
#[verifier::external_body]
fn show_status(code: u16) -> (s: String)
    requires
        100 <= code < 1000,
    ensures
        s@ == status_display(code),
{
    http::StatusCode::from_u16(code).expect("a status code").to_string()
}

/// The words for a request that was answered with another status code than it
/// should.
pub open spec fn status_complaint(what: Seq<char>, code: u16) -> Seq<char> {
    what + " failed with status: "@ + status_display(code)
}

/// The words for a request that was answered with another status code than it
/// should.
pub(crate) fn complain_of_status(what: &str, code: u16) -> (s: String)
    requires
        100 <= code < 1000,
    ensures
        s@ == status_complaint(what@, code),
{
    let mut s = what.to_string();
    s.append(" failed with status: ");
    s.append(show_status(code).as_str());
    s
}

// ---------------------------------------------------------------------------
// Headers
// ---------------------------------------------------------------------------

/// What a server that calls tools is set up with.
#[derive(Debug)]
pub struct McpSetup {
    /// The URI to which calls are sent.
    pub uri: Uri,
    /// A call of each tool.
    pub tool_bodies: Vec<ToolCall>,
    /// The session, where the server has named one.
    pub session_id: Option<String>,
}

/// What `serde_json` and `rmcp` read of the answer to a request for the tools: each
/// tool with its name and the schema of its arguments, in their order, or the
/// complaint that the bytes are no such answer.
pub uninterp spec fn listed_tools(json: Seq<u8>) -> Result<Seq<ToolView>, Seq<char>>;

/// What was read of an answer, as mathematical values.
pub open spec fn listed_view(r: Result<Vec<Tool>, String>) -> Result<Seq<ToolView>, Seq<char>> {
    match r {
        Ok(tools) => Ok(schema::tools_view(tools@)),
        Err(e) => Err(e@),
    }
}

/// `serde_json::from_slice` of an `rmcp` `JsonRpcResponse` with a `ListToolsResult`:
/// the name and the schema of each of its tools. The result depends on the bytes
/// alone. Of what it is, nothing is said.
#[verifier::external_body]
pub(crate) fn read_tools(json: &[u8]) -> (r: Result<Vec<Tool>, String>)
    ensures
        listed_view(r) == listed_tools(json@),
{
    let answer: rmcp::model::JsonRpcResponse<rmcp::model::ListToolsResult> =
        rmcp::serde_json::from_slice(json).map_err(|e| e.to_string())?;
    Ok(
        answer.result.tools.into_iter().map(
            |t| Tool { name: t.name.to_string(), schema: json::plain_value(&t.schema_as_json_value()) },
        ).collect(),
    )
}

/// Why a session cannot be set up with what was read of the answer, if it cannot.
/// Calls are numbered from 100 on, and the numbers have an end.
pub open spec fn setup_refused(listed: Result<Seq<ToolView>, Seq<char>>) -> Option<Seq<char>> {
    match listed {
        Err(e) => Some("failed to parse tools/list response: "@ + e),
        Ok(tools) => if tools.len() == 0 {
            Some("no tools available from MCP server"@)
        } else if tools.len() + 100 > i64::MAX {
            Some("too many tools from MCP server"@)
        } else {
            None
        },
    }
}

/// Whether a session is set up as it should be: with a call of each tool, in their
/// order.
pub open spec fn is_setup(
    m: McpSetup,
    u: uri::UriView,
    tools: Seq<ToolView>,
    session: Option<Seq<char>>,
    opts: Options,
) -> bool {
    &&& m.uri@ == u
    &&& m.tool_bodies.len() == tools.len()
    &&& forall|i: int|
        0 <= i < tools.len() ==> schema::can_be_call(
            tools[i],
            i,
            #[trigger] m.tool_bodies@[i],
            opts.mcp_rand_string_len,
        )
    &&& uri::opt_text(m.session_id) == session
}

/// Sets a session up with what was read of the answer to the request for the tools.
/// `u` is where the calls go.
pub fn set_up(
    listed: Result<Vec<Tool>, String>,
    u: &Uri,
    session: &Option<String>,
    opts: &Options,
) -> (r: Result<McpSetup, String>)
    ensures
        match r {
            Ok(m) => {
                &&& setup_refused(listed_view(listed)) is None
                &&& is_setup(m, u@, listed_view(listed)->Ok_0, uri::opt_text(*session), *opts)
            },
            Err(e) => setup_refused(listed_view(listed)) == Some(e@),
        },
{
    let tools = match listed {
        Ok(t) => t,
        Err(e) => {
            return Err(uri::complain("failed to parse tools/list response: ", e.as_str()));
        },
    };
    if tools.len() == 0 {
        return Err("no tools available from MCP server".to_string());
    }
    if tools.len() as u128 + 100 > 0x7fff_ffff_ffff_ffff {
        return Err("too many tools from MCP server".to_string());
    }
    let tool_bodies = schema::compile_tool_bodies(&tools, opts);
    Ok(McpSetup { uri: uri::copy_uri(u), tool_bodies, session_id: uri::copy_text(session) })
}

/// The tools that are called are those that the server has listed, each once and in
/// their order.
pub proof fn law_listed_tools_are_called(
    m: McpSetup,
    u: uri::UriView,
    tools: Seq<ToolView>,
    session: Option<Seq<char>>,
    opts: Options,
)
    requires
        is_setup(m, u, tools, session, opts),
    ensures
        m.tool_bodies@.map_values(|c: ToolCall| c.name@) == tools.map_values(|t: ToolView| t.0),
{
    let names = tools.map_values(|t: ToolView| t.0);
    let calls = m.tool_bodies@.map_values(|c: ToolCall| c.name@);
    assert forall|i: int| 0 <= i < tools.len() implies calls[i] == #[trigger] names[i] by {
        assert(schema::can_be_call(tools[i], i, m.tool_bodies@[i], opts.mcp_rand_string_len));
    }
}

/// The name of the transport.
pub fn transport(opts: &Options) -> (s: &'static str)
    ensures
        s@ == if opts.mcp_sse {
            "sse"@
        } else {
            "streamableHttp"@
        },
{
    if opts.mcp_sse {
        "sse"
    } else {
        "streamableHttp"
    }
}

/// The form of the answers that are accepted.
pub open spec fn accepted(sse: bool) -> Seq<char> {
    if sse {
        "application/json"@
    } else {
        "application/json, text/event-stream"@
    }
}

/// The headers of a call: JSON is sent, and JSON is accepted. Where the answer
/// comes with the response, it may be in the form of events.
pub open spec fn call_entries(entries: Seq<headers::Entry>, sse: bool) -> Seq<headers::Entry> {
    headers::inserted(
        headers::inserted(
            entries,
            "content-type"@,
            headers::bytes_of("application/json"@),
        ),
        "accept"@,
        headers::bytes_of(accepted(sse)),
    )
}

/// The headers of a call.
pub fn call_headers(map: &http::HeaderMap, sse: bool) -> (r: http::HeaderMap)
    requires
        headers::header_entries(*map).len() + 2 <= headers::NAME_LIMIT,
    ensures
        headers::header_entries(r) == call_entries(headers::header_entries(*map), sse),
        headers::header_entries(r).len() <= headers::header_entries(*map).len() + 2,
{
    let mut r = headers::copy_map(map);
    proof {
        reveal_strlit("content-type");
        reveal_strlit("accept");
        reveal_strlit("application/json");
        reveal_strlit("application/json, text/event-stream");
        assert(text::ascii_lowered("content-type"@) == "content-type"@);
        assert(text::ascii_lowered("accept"@) == "accept"@);
        headers::lemma_entry_at(headers::header_entries(r), "content-type"@);
    }
    headers::insert(&mut r, "content-type", "application/json");
    proof {
        headers::lemma_entry_at(headers::header_entries(r), "accept"@);
    }
    if sse {
        headers::insert(&mut r, "accept", "application/json");
    } else {
        headers::insert(&mut r, "accept", "application/json, text/event-stream");
    }
    r
}

/// Whether a session can be named in a header.
pub open spec fn session_fits(session: Option<Seq<char>>) -> bool {
    session matches Some(id) ==> headers::is_header_value(id)
}

/// Tells whether a session can be named in a header.
pub(crate) fn can_name(session: &Option<String>) -> (r: bool)
    ensures
        r == session_fits(uri::opt_text(*session)),
{
    match session {
        Some(id) => headers::read_value(id.as_str()).is_some(),
        None => true,
    }
}

/// The headers with the session, where the server has named one.
pub open spec fn session_entries(
    entries: Seq<headers::Entry>,
    session: Option<Seq<char>>,
) -> Seq<headers::Entry> {
    match session {
        Some(id) => headers::inserted(entries, "mcp-session-id"@, headers::bytes_of(id)),
        None => entries,
    }
}

/// The headers with the session, where the server has named one.
pub fn session_headers(map: &http::HeaderMap, session: &Option<String>) -> (r: Result<
    http::HeaderMap,
    String,
>)
    requires
        headers::header_entries(*map).len() < headers::NAME_LIMIT,
    ensures
        match r {
            Ok(m) => {
                &&& session_fits(uri::opt_text(*session))
                &&& headers::header_entries(m) == session_entries(
                    headers::header_entries(*map),
                    uri::opt_text(*session),
                )
                &&& headers::header_entries(m).len() <= headers::header_entries(*map).len() + 1
            },
            Err(e) => !session_fits(uri::opt_text(*session)) && e@
                == "failed to parse header value"@,
        },
{
    if !can_name(session) {
        return Err("failed to parse header value".to_string());
    }
    let mut r = headers::copy_map(map);
    match session {
        Some(id) => {
            proof {
                reveal_strlit("mcp-session-id");
                assert(text::ascii_lowered("mcp-session-id"@) == "mcp-session-id"@);
                headers::lemma_entry_at(headers::header_entries(r), "mcp-session-id"@);
            }
            headers::insert(&mut r, "mcp-session-id", id.as_str());
        },
        None => {},
    }
    Ok(r)
}

/// Whether a plan is that of the calls, where `plan` is that of the first request
/// and the server is to be called at `u`: a server that has moved is followed to
/// its host and its port, unless the user has named a host.
pub open spec fn calls_plan(p: Plan, plan: Plan, u: uri::UriView, opts: Options) -> bool {
    let entries = call_entries(headers::header_entries(plan.headers), opts.mcp_sse);
    let follows = opts.mcp_sse && opts.host is None;
    let host = match u.host {
        Some(h) => if follows {
            h
        } else {
            plan.host@
        },
        None => plan.host@,
    };
    let port: u16 = match u.port {
        Some((_, n)) => if follows {
            n
        } else {
            plan.port
        },
        None => plan.port,
    };
    &&& p.uri@ == u
    &&& p.target@ == (if opts.absolute_uri || opts.http2 {
        u
    } else {
        uri::origin_of(u)
    })
    &&& p.host@ == host && p.port == port
    &&& p.endpoint@ == (if follows {
        uri::endpoint(host, port)
    } else {
        plan.endpoint@
    })
    &&& uri::opt_text(p.server_name) == uri::server_name(opts, u)
    &&& p.method@ == "POST"@
    &&& headers::header_entries(p.headers) == entries
    &&& headers::header_entries(p.closing) == headers::closing_entries(entries)
    &&& p.trailers is None
}

/// The plan of the calls, where `plan` is that of the first request and the server
/// is to be called at `u`.
pub fn plan_calls(plan: Plan, u: Uri, opts: &Options) -> (p: Plan)
    requires
        headers::header_entries(plan.headers).len() + 2 < headers::NAME_LIMIT,
    ensures
        calls_plan(p, plan, u@, *opts),
        headers::header_entries(p.headers).len() <= headers::header_entries(plan.headers).len() + 2,
        headers::header_entries(p.closing).len() <= headers::header_entries(plan.headers).len() + 3,
        uri::is_parsed(u@) || !(opts.absolute_uri || opts.http2) ==> uri::is_parsed(p.target@),
{
    let headers = call_headers(&plan.headers, opts.mcp_sse);
    let closing = headers::closing_headers(&headers);
    let target = uri::request_uri(&u, opts.absolute_uri || opts.http2);
    let server_name: Option<String> = match uri::tls_server_name(opts, &u) {
        Some(name) => Some(name.to_string()),
        None => None,
    };
    let mut host = plan.host;
    let mut port: u16 = plan.port;
    let mut endpoint = plan.endpoint;
    if opts.mcp_sse && opts.host.is_none() {
        match &u.host {
            Some(h) => {
                host = h.clone();
            },
            None => {},
        }
        match &u.port {
            Some((_, n)) => {
                port = *n;
            },
            None => {},
        }
        endpoint = uri::build_conn_endpoint(host.as_str(), port);
    }
    Plan {
        uri: u,
        target,
        host,
        port,
        endpoint,
        server_name,
        method: "POST".to_string(),
        headers,
        closing,
        trailers: None,
    }
}

/// Whether two plans agree in everything but their headers and trailers.
pub open spec fn same_place(a: Plan, b: Plan) -> bool {
    &&& a.uri@ == b.uri@ && a.target@ == b.target@
    &&& a.host@ == b.host@ && a.port == b.port && a.endpoint@ == b.endpoint@
    &&& uri::opt_text(a.server_name) == uri::opt_text(b.server_name)
    &&& a.method@ == b.method@
}

/// Names the session in the headers of the calls, where the server has named one.
/// Calls have no trailers.
pub fn join_session(plan: &Plan, session: &Option<String>) -> (r: Result<Plan, String>)
    requires
        headers::header_entries(plan.headers).len() + 1 < headers::NAME_LIMIT,
    ensures
        match r {
            Ok(p) => {
                let entries = session_entries(
                    headers::header_entries(plan.headers),
                    uri::opt_text(*session),
                );
                &&& session_fits(uri::opt_text(*session))
                &&& headers::header_entries(p.headers) == entries
                &&& headers::header_entries(p.closing) == headers::closing_entries(entries)
                &&& same_place(p, *plan)
                &&& p.trailers is None
                &&& headers::header_entries(p.headers).len() <= headers::header_entries(
                    plan.headers,
                ).len() + 1
                &&& headers::header_entries(p.closing).len() <= headers::header_entries(
                    plan.headers,
                ).len() + 2
            },
            Err(e) => !session_fits(uri::opt_text(*session)) && e@
                == "invalid session id: failed to parse header value"@,
        },
{
    let headers = match session_headers(&plan.headers, session) {
        Ok(m) => m,
        Err(_) => {
            return Err("invalid session id: failed to parse header value".to_string());
        },
    };
    let closing = headers::closing_headers(&headers);
    Ok(
        Plan {
            uri: uri::copy_uri(&plan.uri),
            target: uri::copy_uri(&plan.target),
            host: plan.host.clone(),
            port: plan.port,
            endpoint: plan.endpoint.clone(),
            server_name: uri::copy_text(&plan.server_name),
            method: plan.method.clone(),
            headers,
            closing,
            trailers: None,
        },
    )
}

// ---------------------------------------------------------------------------
// What messages and plans keep to
// ---------------------------------------------------------------------------

/// The number of the request that starts a session is 1, that of the request for the tools
/// is 2, and what is refused is refused with the code for a method that is not known.
pub proof fn law_messages_are_written(version: Seq<char>, id: RpcId)
    ensures
        message_bytes(Message::Initialize, version) == initialize_bytes("plumbrs"@, version, 1),
        message_bytes(Message::Initialized, version) == Ok::<Seq<u8>, Seq<char>>(
            vstd::utf8::encode_utf8("{\"jsonrpc\":\"2.0\",\"method\":\"notifications/initialized\"}"@),
        ),
        message_bytes(Message::ToolsList, version) == Ok::<Seq<u8>, Seq<char>>(
            vstd::utf8::encode_utf8(
                "{\"jsonrpc\":\"2.0\",\"id\":2,\"method\":\"tools/list\",\"params\":{}}"@,
            ),
        ),
        message_bytes(Message::RootsRefused(id), version) == error_bytes(
            id@,
            (-32601) as i32,
            "roots/list is not supported (removed by SEP-2577)"@,
        ),
{
    reveal_strlit("{\"jsonrpc\":\"2.0\",\"id\":");
    reveal_strlit(",\"method\":\"tools/list\",\"params\":{}}");
    reveal_strlit("{\"jsonrpc\":\"2.0\",\"id\":2,\"method\":\"tools/list\",\"params\":{}}");
    assert(text::decimal(2) == seq!['2']);
    assert("{\"jsonrpc\":\"2.0\",\"id\":"@ + text::decimal(2)
        + ",\"method\":\"tools/list\",\"params\":{}}"@
        == "{\"jsonrpc\":\"2.0\",\"id\":2,\"method\":\"tools/list\",\"params\":{}}"@);
}

/// A message with a method is no answer: it is a request for roots where it asks for them
/// and has a number, which is the one that is refused, and otherwise does not matter. A
/// message without a method is an answer, and what is no JSON does not matter.
pub proof fn law_messages_are_told_apart(
    v: JsonView,
    m: JsonView,
    n: i64,
    name: Seq<char>,
)
    ensures
        json::member(v, "method"@) is None ==> judged(Some(v)) is Answer,
        json::member(v, "method"@) is Some ==> !(judged(Some(v)) is Answer),
        json::member(v, "method"@) is Some && json::member(v, "id"@) is None ==> judged(Some(v)) is Other,
        json::member(v, "method"@) == Some(m) && m != JsonView::Text("roots/list"@) ==> judged(Some(v))
            is Other,
        json::member(v, "method"@) == Some(JsonView::Text("roots/list"@)) && json::member(v, "id"@)
            == Some(JsonView::Number(Num::Int(n))) ==> judged(Some(v)) == IncomingView::Roots(
            RpcIdView::Number(n),
        ),
        json::member(v, "method"@) == Some(JsonView::Text("roots/list"@)) && json::member(v, "id"@)
            == Some(JsonView::Text(name)) ==> judged(Some(v)) == IncomingView::Roots(
            RpcIdView::Text(name),
        ),
        json::member(v, "method"@) == Some(JsonView::Text("roots/list"@)) && json::member(v, "id"@)
            is Some ==> judged(Some(v)) is Roots,
        judged(None) is Other,
{
}

/// A message in which the word does not stand is an answer without being read. Any other is
/// judged by what it is read as.
pub proof fn law_words_decide_first(before: Seq<char>, behind: Seq<char>, data: Seq<char>)
    ensures
        ({
            let s = before + "\"method\""@ + behind;
            classified(s) == judged(json::parsed_json(s))
        }),
        !text::holds(data, "\"method\""@) ==> classified(data) is Answer,
{
    let s = before + "\"method\""@ + behind;
    text::law_held_text_stands_inside(s, "\"method\""@);
}

/// The JSON in a response is its body, unless the response is in the form of events: then
/// it is their data, and there is none where they have no data.
pub proof fn law_json_is_found(t: Seq<char>, before: Seq<char>, behind: Seq<char>, body: Seq<u8>)
    ensures
        json_in(None, body) == Ok::<Seq<u8>, Seq<char>>(body),
        !text::holds(t, "text/event-stream"@) ==> json_in(Some(t), body) == Ok::<Seq<u8>, Seq<char>>(body),
        ({
            let events = before + "text/event-stream"@ + behind;
            let lines = text::lines_of(lossy_text(body));
            &&& sse::has_data(lines) ==> json_in(Some(events), body) == Ok::<Seq<u8>, Seq<char>>(
                vstd::utf8::encode_utf8(sse::data_of(lines)),
            )
            &&& !sse::has_data(lines) ==> json_in(Some(events), body) is Err
        }),
{
    let events = before + "text/event-stream"@ + behind;
    text::law_held_text_stands_inside(events, "text/event-stream"@);
}

/// A session is set up with any number of tools from one on, as far as they can be
/// numbered. Without tools, or where the answer cannot be read, it is not.
pub proof fn law_when_a_session_is_set_up(tools: Seq<ToolView>, e: Seq<char>)
    ensures
        setup_refused(Ok(tools)) is None <==> 1 <= tools.len() <= i64::MAX - 100,
        setup_refused(Err(e)) matches Some(m) && m.len() > e.len() && m.skip(m.len() - e.len()) == e,
{
    reveal_strlit("failed to parse tools/list response: ");
    let m = "failed to parse tools/list response: "@ + e;
    assert(m.skip(m.len() - e.len()) == e);
}

/// What a session is set up with is what was read: the place, the session and one call of
/// each tool, numbered from 100 on.
pub proof fn law_setup_is_what_was_read(
    m: McpSetup,
    u: uri::UriView,
    tools: Seq<ToolView>,
    session: Option<Seq<char>>,
    opts: Options,
    i: int,
)
    requires
        is_setup(m, u, tools, session, opts),
        0 <= i < tools.len(),
    ensures
        m.uri@ == u,
        m.tool_bodies@.len() == tools.len(),
        m.tool_bodies@[i].name@ == tools[i].0,
        m.tool_bodies@[i].id == 100 + i,
        session is None ==> m.session_id is None,
        session is Some ==> m.session_id is Some && m.session_id->0@ == session->0,
{
    assert(schema::can_be_call(tools[i], i, m.tool_bodies@[i], opts.mcp_rand_string_len));
}

proof fn lemma_header_names_differ()
    ensures
        "content-type"@ != "accept"@,
        "content-type"@ != "connection"@,
        "accept"@ != "connection"@,
{
    reveal_strlit("content-type");
    reveal_strlit("accept");
    reveal_strlit("connection");
    assert("content-type"@.len() != "accept"@.len());
    assert("content-type"@.len() != "connection"@.len());
    assert("accept"@.len() != "connection"@.len());
}

/// A call says that it sends JSON and accepts it, and accepts events as well where the
/// answer comes with the response. Its other headers are those of the first request.
pub proof fn law_headers_of_a_call(entries: Seq<headers::Entry>, sse: bool, name: Seq<char>)
    ensures
        ({
            let sent = headers::values_under(call_entries(entries, sse), name);
            &&& name == "content-type"@ ==> sent == seq![vstd::utf8::encode_utf8("application/json"@)]
            &&& name == "accept"@ && sse ==> sent == seq![vstd::utf8::encode_utf8("application/json"@)]
            &&& name == "accept"@ && !sse ==> sent == seq![
                vstd::utf8::encode_utf8("application/json, text/event-stream"@),
            ]
            &&& name != "content-type"@ && name != "accept"@ ==> sent == headers::values_under(
                entries,
                name,
            )
        }),
{
    lemma_header_names_differ();
    let json = headers::bytes_of("application/json"@);
    let once = headers::inserted(entries, "content-type"@, json);
    headers::law_inserting_replaces_the_values(entries, "content-type"@, json, name);
    headers::law_inserting_replaces_the_values(once, "accept"@, headers::bytes_of(accepted(sse)), name);
}

/// A call names the session of the server, and none where the server has named none.
pub proof fn law_session_is_named(entries: Seq<headers::Entry>, id: Seq<char>, name: Seq<char>)
    ensures
        headers::values_under(session_entries(entries, Some(id)), "mcp-session-id"@) == seq![
            vstd::utf8::encode_utf8(id),
        ],
        name != "mcp-session-id"@ ==> headers::values_under(session_entries(entries, Some(id)), name)
            == headers::values_under(entries, name),
        session_entries(entries, None) == entries,
{
    headers::law_inserting_replaces_the_values(
        entries,
        "mcp-session-id"@,
        headers::bytes_of(id),
        name,
    );
}

/// Calls are sent with `POST`, without trailers, to the server of the first request. One
/// that answers in a stream of events and names another host or port is followed there,
/// unless the user has named a host.
pub proof fn law_calls_go_to_the_server(p: Plan, plan: Plan, u: uri::UriView, opts: Options)
    requires
        calls_plan(p, plan, u, opts),
    ensures
        p.method@ == "POST"@ && p.trailers is None && p.uri@ == u,
        !opts.mcp_sse || opts.host is Some ==> p.host@ == plan.host@ && p.port == plan.port
            && p.endpoint@ == plan.endpoint@,
        opts.mcp_sse && opts.host is None ==> p.endpoint@ == p.host@ + seq![':'] + text::decimal(
            p.port as nat,
        ),
        opts.mcp_sse && opts.host is None && u.host is Some ==> p.host@ == u.host->0,
        opts.mcp_sse && opts.host is None && u.host is None ==> p.host@ == plan.host@,
        opts.mcp_sse && opts.host is None && u.port is Some ==> p.port == (u.port->0).1,
        opts.mcp_sse && opts.host is None && u.port is None ==> p.port == plan.port,
        opts.absolute_uri || opts.http2 ==> p.target@ == u,
        !opts.absolute_uri && !opts.http2 ==> p.target@ == uri::origin_of(u),
        u.scheme != Some("https"@) ==> p.server_name is None,
        headers::values_under(headers::header_entries(p.closing), "connection"@) == seq![
            seq![99u8, 108, 111, 115, 101],
        ],
        headers::values_under(headers::header_entries(p.headers), "content-type"@) == seq![
            vstd::utf8::encode_utf8("application/json"@),
        ],
{
    reveal_strlit(":");
    assert(":"@ == seq![':']);
    let entries = headers::header_entries(plan.headers);
    law_headers_of_a_call(entries, opts.mcp_sse, "content-type"@);
    headers::law_last_request_asks_to_close(call_entries(entries, opts.mcp_sse), "connection"@);
}

/// The form of a response is known by its content type, whatever stands around the name of
/// the form.
pub proof fn law_event_streams_are_known(before: Seq<char>, behind: Seq<char>)
    ensures
        is_event_stream(Some(before + "text/event-stream"@ + behind)),
        !is_event_stream(None),
{
    text::law_held_text_stands_inside(before + "text/event-stream"@ + behind, "text/event-stream"@);
}

/// Bytes are those that are described where both are there and equal, or both are refused
/// with the same words.
pub proof fn law_results_agree(r: Result<Vec<u8>, String>, want: Result<Seq<u8>, Seq<char>>)
    requires
        same_bytes(r, want),
    ensures
        r is Ok <==> want is Ok,
        r is Ok ==> r->Ok_0@ == want->Ok_0,
        r is Err ==> r->Err_0@ == want->Err_0,
{
}

/// Plans for the same place connect to it and ask for it in the same way.
pub proof fn law_same_place(a: Plan, b: Plan)
    requires
        same_place(a, b),
    ensures
        a.host@ == b.host@ && a.port == b.port && a.endpoint@ == b.endpoint@,
        a.uri@ == b.uri@ && a.target@ == b.target@ && a.method@ == b.method@,
        a.server_name is Some <==> b.server_name is Some,
        a.server_name is Some ==> a.server_name->0@ == b.server_name->0@,
{
}

/// What was read of the tools is each of them with its name and its schema, in order.
pub proof fn law_tools_are_seen(tools: Vec<Tool>, i: int, e: String)
    ensures
        listed_view(Ok(tools)) is Ok && listed_view(Ok(tools))->Ok_0.len() == tools@.len(),
        0 <= i < tools@.len() ==> listed_view(Ok(tools))->Ok_0[i] == (
            tools@[i].name@,
            tools@[i].schema.value(),
        ),
        listed_view(Err(e)) == Err::<Seq<ToolView>, Seq<char>>(e@),
{
}

} // verus!
