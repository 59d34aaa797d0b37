//! Starting a session with a tool server that answers in a stream of events:
//! requests go to the place that the first event names, and their answers come as
//! later events.
use crate::mcp;
use crate::mcp::{Incoming, McpSetup, Message};
use crate::options::Options;
use crate::sse;
use crate::sse::SseReader;
use crate::text;
use crate::uri;
use crate::uri::Uri;
use vstd::prelude::*;

verus! {

/// How far the start of a session has come: what is waited for.
#[derive(Clone, Copy, Debug, PartialEq, Eq, Structural)]
pub enum Stage {
    /// Nothing was done yet.
    Idle,
    /// The connection of the stream.
    Stream,
    /// The response that holds the stream.
    Handshake,
    /// The event that names the place of the requests.
    Place,
    /// The connection of the requests.
    Requests,
    /// The response to the request that starts the session.
    Initialize,
    /// The event that answers it.
    InitializeAnswer,
    /// The response to the notification that it has started.
    Initialized,
    /// The response to the request for the tools.
    ToolsList,
    /// The event that answers it.
    ToolsAnswer,
    /// The response to the refusal of a request for roots.
    Refusal,
    /// Nothing: the session has started, or it cannot start.
    Over,
}

/// What came of an action.
#[derive(Debug)]
pub enum Event {
    /// Nothing was done yet.
    Start,
    /// The connection is open.
    Connected,
    /// The connection could not be opened.
    NotConnected,
    /// The request was answered.
    Answered,
    /// The connection takes no request.
    NotReady(String),
    /// The request was not answered.
    Failed(String),
    /// A piece of the stream.
    Piece(Vec<u8>),
    /// The stream could not be read.
    Broken(String),
    /// The stream has ended.
    End,
}

/// What to do next.
#[derive(Debug)]
pub enum Action {
    /// Open the connection of the stream.
    ConnectStream,
    /// Ask for the stream.
    Get,
    /// Read a piece of the stream.
    Read,
    /// Open the connection of the requests.
    ConnectRequests,
    /// Send a request with this body to the place of the requests.
    Post(Vec<u8>),
    /// The session has started.
    Ready(McpSetup),
    /// The session cannot start.
    Fail(String),
}

/// `Action`, as mathematical values. What a session is set up with is left out.
pub enum ActionView {
    ConnectStream,
    Get,
    Read,
    ConnectRequests,
    Post(Seq<u8>),
    Ready,
    Fail(Seq<char>),
}

impl View for Action {
    type V = ActionView;

    open spec fn view(&self) -> ActionView {
        match *self {
            Action::ConnectStream => ActionView::ConnectStream,
            Action::Get => ActionView::Get,
            Action::Read => ActionView::Read,
            Action::ConnectRequests => ActionView::ConnectRequests,
            Action::Post(b) => ActionView::Post(b@),
            Action::Ready(_) => ActionView::Ready,
            Action::Fail(m) => ActionView::Fail(m@),
        }
    }
}

/// How far the start of a session has come.
#[verifier::ext_equal]
pub struct InitView {
    pub stage: Stage,
    /// The URI of the stream, as it was given.
    pub given: Seq<char>,
    /// The place of the requests, once it is known.
    pub place: Option<uri::UriView>,
    /// What was read of the stream and not yet used.
    pub buffer: Seq<char>,
    /// The data of the event that is not complete.
    pub data: Seq<char>,
}

/// Whether a stage waits for the response to a request.
pub open spec fn posts(stage: Stage) -> bool {
    ||| stage is Initialize
    ||| stage is Initialized
    ||| stage is ToolsList
    ||| stage is Refusal
}

/// Whether a stage waits for an event.
pub open spec fn reads(stage: Stage) -> bool {
    stage is Place || stage is InitializeAnswer || stage is ToolsAnswer
}

/// Whether an event can come of what was done.
pub open spec fn expects(stage: Stage, event: Event) -> bool {
    match event {
        Event::Start => stage is Idle,
        Event::Connected | Event::NotConnected => stage is Stream || stage is Requests,
        Event::Answered | Event::Failed(_) => stage is Handshake || posts(stage),
        Event::NotReady(_) => posts(stage),
        Event::Piece(_) | Event::Broken(_) | Event::End => reads(stage),
    }
}

/// The session cannot start.
pub open spec fn failing(s: InitView, why: Seq<char>) -> (InitView, ActionView) {
    (InitView { stage: Stage::Over, ..s }, ActionView::Fail(why))
}

/// A message is sent. `what` names it in a complaint.
pub open spec fn sending(
    s: InitView,
    bytes: Result<Seq<u8>, Seq<char>>,
    what: Seq<char>,
    stage: Stage,
) -> (InitView, ActionView) {
    match bytes {
        Ok(b) => (InitView { stage, ..s }, ActionView::Post(b)),
        Err(e) => failing(s, "failed to serialize "@ + what + ": "@ + e),
    }
}

/// What follows the event that names the place of the requests.
pub open spec fn after_place(s: InitView, event: Seq<char>) -> (InitView, ActionView) {
    let place = text::trimmed(event);
    if place.len() == 0 {
        failing(s, "could not find endpoint in SSE handshake"@)
    } else {
        match uri::moved(s.given, place) {
            Ok(u) => (
                InitView { stage: Stage::Requests, place: Some(u), ..s },
                ActionView::ConnectRequests,
            ),
            Err(e) => failing(s, e),
        }
    }
}

/// What follows the answer to the request that starts the session.
pub open spec fn after_initialize(s: InitView, event: Seq<char>, version: Seq<char>) -> (
    InitView,
    ActionView,
) {
    match mcp::initialize_fault(vstd::utf8::encode_utf8(event)) {
        Some(e) => failing(s, "failed to parse initialize response: "@ + e),
        None => sending(
            s,
            mcp::message_bytes(Message::Initialized, version),
            "initialized notification"@,
            Stage::Initialized,
        ),
    }
}

/// The next event that matters while the list of tools is waited for, what is left
/// of the stream, and the data of the event that is not complete.
pub open spec fn next_answer(buffer: Seq<char>, data: Seq<char>) -> (
    Option<Seq<char>>,
    Seq<char>,
    Seq<char>,
)
    decreases buffer.len(),
    via next_answer_shrinks
{
    let (event, left, kept) = sse::next_event(buffer, data);
    match event {
        Some(e) => if mcp::classified(e) is Other {
            next_answer(left, kept)
        } else {
            (event, left, kept)
        },
        None => (event, left, kept),
    }
}

#[via_fn]
proof fn next_answer_shrinks(buffer: Seq<char>, data: Seq<char>) {
    sse::lemma_next_event_shrinks(buffer, data);
}

/// What follows the answer to the request for the tools.
pub open spec fn after_tools(s: InitView, event: Seq<char>) -> (InitView, ActionView) {
    match mcp::setup_refused(mcp::listed_tools(vstd::utf8::encode_utf8(event))) {
        Some(e) => failing(s, e),
        None => (InitView { stage: Stage::Over, ..s }, ActionView::Ready),
    }
}

/// Whether a session is set up with the tools in an event, and calls go to the
/// place of the requests.
pub open spec fn ready_with(m: McpSetup, s: InitView, event: Seq<char>, opts: Options) -> bool {
    s.place matches Some(u) ==> mcp::is_setup(
        m,
        u,
        mcp::listed_tools(vstd::utf8::encode_utf8(event))->Ok_0,
        None,
        opts,
    )
}

/// The event that answers the request for the tools, where what was read of the
/// stream holds it.
pub open spec fn answer_in(s: InitView, event: Event) -> Seq<char> {
    let buffer = match event {
        Event::Piece(b) => s.buffer + mcp::lossy_text(b@),
        _ => s.buffer,
    };
    next_answer(buffer, s.data).0->0
}

/// What follows an event while the list of tools is waited for.
pub open spec fn after_answer(s: InitView, event: Seq<char>) -> (InitView, ActionView) {
    match mcp::classified(event) {
        mcp::IncomingView::Roots(id) => sending(
            s,
            mcp::refusal_bytes(id),
            "roots/list response"@,
            Stage::Refusal,
        ),
        _ => after_tools(s, event),
    }
}

/// The events that were read so far are used. Where none that matters is complete,
/// more of the stream is read.
pub open spec fn reading(s: InitView, version: Seq<char>) -> (InitView, ActionView) {
    let (event, buffer, data) = if s.stage is ToolsAnswer {
        next_answer(s.buffer, s.data)
    } else {
        sse::next_event(s.buffer, s.data)
    };
    let t = InitView { buffer, data, ..s };
    match event {
        None => (t, ActionView::Read),
        Some(e) => match s.stage {
            Stage::Place => after_place(t, e),
            Stage::InitializeAnswer => after_initialize(t, e, version),
            _ => after_answer(t, e),
        },
    }
}

/// What a stage waits for, in a complaint that the stream could not be read.
pub open spec fn awaited(stage: Stage) -> Seq<char> {
    match stage {
        Stage::Place => "failed to read SSE handshake event: "@,
        Stage::InitializeAnswer => "failed to read initialize response: "@,
        _ => "failed to read SSE event (tools/list): "@,
    }
}

/// What follows a response.
pub open spec fn after_response(s: InitView, version: Seq<char>) -> (InitView, ActionView) {
    match s.stage {
        Stage::Handshake => reading(InitView { stage: Stage::Place, ..s }, version),
        Stage::Initialize => reading(InitView { stage: Stage::InitializeAnswer, ..s }, version),
        Stage::Initialized => sending(
            s,
            mcp::message_bytes(Message::ToolsList, version),
            "tools/list request"@,
            Stage::ToolsList,
        ),
        _ => reading(InitView { stage: Stage::ToolsAnswer, ..s }, version),
    }
}

/// What follows an event, and how far the start of the session has come then.
pub open spec fn next(s: InitView, event: Event, version: Seq<char>) -> (InitView, ActionView) {
    match event {
        Event::Start => (InitView { stage: Stage::Stream, ..s }, ActionView::ConnectStream),
        Event::Connected => if s.stage is Stream {
            (InitView { stage: Stage::Handshake, ..s }, ActionView::Get)
        } else {
            sending(
                s,
                mcp::message_bytes(Message::Initialize, version),
                "initialize request"@,
                Stage::Initialize,
            )
        },
        Event::NotConnected => failing(
            s,
            if s.stage is Stream {
                "SSE connection failed"@
            } else {
                "POST connection failed"@
            },
        ),
        Event::Answered => after_response(s, version),
        Event::NotReady(e) => failing(s, "POST request failed: POST: sender not ready: "@ + e@),
        Event::Failed(e) => failing(
            s,
            if s.stage is Handshake {
                "SSE handshake request failed: "@ + e@
            } else {
                "POST request failed: POST failed: "@ + e@
            },
        ),
        Event::Piece(b) => reading(
            InitView { buffer: s.buffer + mcp::lossy_text(b@), ..s },
            version,
        ),
        Event::Broken(e) => failing(s, awaited(s.stage) + "SSE read error: "@ + e@),
        Event::End => failing(s, awaited(s.stage) + "SSE stream ended"@),
    }
}

/// The start of a session.
#[derive(Debug)]
pub struct SseInit {
    stage: Stage,
    given: String,
    place: Option<Uri>,
    reader: SseReader,
}

impl View for SseInit {
    type V = InitView;

    closed spec fn view(&self) -> InitView {
        InitView {
            stage: self.stage,
            given: self.given@,
            place: match self.place {
                Some(u) => Some(u@),
                None => None,
            },
            buffer: self.reader.buffer(),
            data: self.reader.data(),
        }
    }
}

impl SseInit {
    /// A session with the server whose stream is at a URI.
    pub fn new(given: &str) -> (r: SseInit)
        ensures
            r@ == (InitView {
                stage: Stage::Idle,
                given: given@,
                place: None,
                buffer: Seq::empty(),
                data: Seq::empty(),
            }),
    {
        SseInit {
            stage: Stage::Idle,
            given: given.to_string(),
            place: None,
            reader: SseReader::new(),
        }
    }

    /// What is waited for.
    pub fn stage(&self) -> (s: Stage)
        ensures
            s == self@.stage,
    {
        self.stage
    }

    /// The place of the requests, once it is known.
    pub fn place(&self) -> (u: Option<Uri>)
        ensures
            match u {
                Some(v) => self@.place == Some(v@),
                None => self@.place is None,
            },
    {
        match &self.place {
            Some(u) => Some(uri::copy_uri(u)),
            None => None,
        }
    }

    fn fail(&mut self, why: String) -> (a: Action)
        ensures
            (final(self)@, a@) == failing(old(self)@, why@),
    {
        self.stage = Stage::Over;
        Action::Fail(why)
    }

    /// Sends a message. `what` names it in a complaint.
    fn send(&mut self, m: Message, what: &str, version: &str, stage: Stage) -> (a: Action)
        ensures
            (final(self)@, a@) == sending(
                old(self)@,
                mcp::message_bytes(m, version@),
                what@,
                stage,
            ),
    {
        match mcp::encode_message(&m, version) {
            Ok(body) => {
                self.stage = stage;
                Action::Post(body)
            },
            Err(e) => {
                let mut why = "failed to serialize ".to_string();
                why.append(what);
                why.append(": ");
                why.append(e.as_str());
                self.fail(why)
            },
        }
    }

    fn on_place(&mut self, event: String) -> (a: Action)
        ensures
            (final(self)@, a@) == after_place(old(self)@, event@),
    {
        let v = text::chars_of(event.as_str());
        let slice = v.as_slice();
        let kept = text::trim(slice);
        if kept.len() == 0 {
            return self.fail("could not find endpoint in SSE handshake".to_string());
        }
        let place = text::string_of(kept);
        match uri::move_to(self.given.as_str(), place.as_str()) {
            Ok(u) => {
                self.stage = Stage::Requests;
                self.place = Some(u);
                Action::ConnectRequests
            },
            Err(e) => self.fail(e),
        }
    }

    fn on_initialize(&mut self, event: String, version: &str) -> (a: Action)
        ensures
            (final(self)@, a@) == after_initialize(old(self)@, event@, version@),
    {
        match mcp::read_initialize(event.as_str().as_bytes()) {
            Some(e) => self.fail(
                uri::complain("failed to parse initialize response: ", e.as_str()),
            ),
            None => self.send(
                Message::Initialized,
                "initialized notification",
                version,
                Stage::Initialized,
            ),
        }
    }

    fn on_tools(&mut self, event: String, opts: &Options) -> (a: Action)
        ensures
            (final(self)@, a@) == after_tools(old(self)@, event@),
            a matches Action::Ready(m) ==> ready_with(m, old(self)@, event@, *opts),
    {
        let listed = mcp::read_tools(event.as_str().as_bytes());
        let root = uri::or_root(Err(String::new()));
        let made = match &self.place {
            Some(u) => mcp::set_up(listed, u, &None, opts),
            None => mcp::set_up(listed, &root, &None, opts),
        };
        match made {
            Ok(m) => {
                self.stage = Stage::Over;
                Action::Ready(m)
            },
            Err(e) => self.fail(e),
        }
    }

    /// Uses what was read of the stream while the list of tools is waited for.
    fn read_answer(&mut self, version: &str, opts: &Options) -> (a: Action)
        requires
            old(self)@.stage is ToolsAnswer,
        ensures
            (final(self)@, a@) == reading(old(self)@, version@),
            a matches Action::Ready(m) ==> ready_with(
                m,
                old(self)@,
                next_answer(old(self)@.buffer, old(self)@.data).0->0,
                *opts,
            ),
    {
        let ghost all = next_answer(self@.buffer, self@.data);
        loop
            invariant
                all == next_answer(self@.buffer, self@.data),
                all == next_answer(old(self)@.buffer, old(self)@.data),
                self@.stage is ToolsAnswer,
                old(self)@.stage is ToolsAnswer,
                self@.given == old(self)@.given,
                self@.place == old(self)@.place,
            decreases self@.buffer.len(),
        {
            proof {
                sse::lemma_next_event_shrinks(self@.buffer, self@.data);
            }
            match self.reader.read() {
                None => {
                    return Action::Read;
                },
                Some(event) => match mcp::classify(event.as_str()) {
                    Incoming::Other => {},
                    Incoming::Roots(id) => {
                        return self.send(
                            Message::RootsRefused(id),
                            "roots/list response",
                            version,
                            Stage::Refusal,
                        );
                    },
                    Incoming::Answer => {
                        return self.on_tools(event, opts);
                    },
                },
            }
        }
    }

    /// Uses what was read of the stream.
    fn read(&mut self, version: &str, opts: &Options) -> (a: Action)
        requires
            reads(old(self)@.stage),
        ensures
            (final(self)@, a@) == reading(old(self)@, version@),
            a matches Action::Ready(m) ==> ready_with(
                m,
                old(self)@,
                next_answer(old(self)@.buffer, old(self)@.data).0->0,
                *opts,
            ),
    {
        if self.stage == Stage::ToolsAnswer {
            return self.read_answer(version, opts);
        }
        match self.reader.read() {
            None => Action::Read,
            Some(event) => if self.stage == Stage::Place {
                self.on_place(event)
            } else {
                self.on_initialize(event, version)
            },
        }
    }

    fn on_response(&mut self, version: &str, opts: &Options) -> (a: Action)
        requires
            expects(old(self)@.stage, Event::Answered),
        ensures
            (final(self)@, a@) == after_response(old(self)@, version@),
            a matches Action::Ready(m) ==> ready_with(
                m,
                old(self)@,
                next_answer(old(self)@.buffer, old(self)@.data).0->0,
                *opts,
            ),
    {
        match self.stage {
            Stage::Initialized => {
                return self.send(
                    Message::ToolsList,
                    "tools/list request",
                    version,
                    Stage::ToolsList,
                );
            },
            Stage::Handshake => {
                self.stage = Stage::Place;
            },
            Stage::Initialize => {
                self.stage = Stage::InitializeAnswer;
            },
            _ => {
                self.stage = Stage::ToolsAnswer;
            },
        }
        self.read(version, opts)
    }

    /// What is waited for, in a complaint that the stream could not be read.
    fn awaited(&self) -> (s: &'static str)
        ensures
            s@ == awaited(self@.stage),
    {
        match self.stage {
            Stage::Place => "failed to read SSE handshake event: ",
            Stage::InitializeAnswer => "failed to read initialize response: ",
            _ => "failed to read SSE event (tools/list): ",
        }
    }

    /// Says what to do next: the stream is asked for, the session is started, it is
    /// announced that it has started, and the tools are asked for and read. A request for
    /// roots that comes in between is refused. `version` is that of this program.
    pub fn step(&mut self, event: Event, version: &str, opts: &Options) -> (a: Action)
        requires
            expects(old(self)@.stage, event),
        ensures
            (final(self)@, a@) == next(old(self)@, event, version@),
            a matches Action::Ready(m) ==> ready_with(
                m,
                old(self)@,
                answer_in(old(self)@, event),
                *opts,
            ),
    {
        match event {
            Event::Start => {
                self.stage = Stage::Stream;
                Action::ConnectStream
            },
            Event::Connected => {
                if self.stage == Stage::Stream {
                    self.stage = Stage::Handshake;
                    Action::Get
                } else {
                    self.send(
                        Message::Initialize,
                        "initialize request",
                        version,
                        Stage::Initialize,
                    )
                }
            },
            Event::NotConnected => {
                if self.stage == Stage::Stream {
                    self.fail("SSE connection failed".to_string())
                } else {
                    self.fail("POST connection failed".to_string())
                }
            },
            Event::Answered => self.on_response(version, opts),
            Event::NotReady(e) => self.fail(
                uri::complain("POST request failed: POST: sender not ready: ", e.as_str()),
            ),
            Event::Failed(e) => {
                if self.stage == Stage::Handshake {
                    self.fail(uri::complain("SSE handshake request failed: ", e.as_str()))
                } else {
                    self.fail(uri::complain("POST request failed: POST failed: ", e.as_str()))
                }
            },
            Event::Piece(b) => {
                let piece = mcp::lossy(b.as_slice());
                self.reader.feed(piece.as_str());
                self.read(version, opts)
            },
            Event::Broken(e) => {
                let mut m = self.awaited().to_string();
                m.append("SSE read error: ");
                m.append(e.as_str());
                self.fail(m)
            },
            Event::End => {
                let m = uri::complain(self.awaited(), "SSE stream ended");
                self.fail(m)
            },
        }
    }
}

/// Where the stream of a server is, and how it is reached.
#[derive(Debug)]
pub struct StreamPlace {
    pub base: Uri,
    /// The URI on the request for the stream.
    pub target: Uri,
    /// The host and the port as one text.
    pub endpoint: String,
    /// The name that a TLS server is asked for.
    pub server_name: Option<String>,
}

/// Why the stream at a URI cannot be reached, if it cannot.
pub open spec fn place_refused(parsed: Result<uri::UriView, Seq<char>>, opts: Options) -> Option<
    Seq<char>,
> {
    match parsed {
        Err(e) => Some("invalid base uri: "@ + e),
        Ok(u) => if uri::conn_address(opts, u) is None {
            Some("no host in uri"@)
        } else {
            None
        },
    }
}

/// Where the stream at a URI is. `parsed` is what the text of the URI was read as.
pub fn locate(parsed: Result<Uri, String>, opts: &Options) -> (r: Result<StreamPlace, String>)
    ensures
        ({
            let view = match parsed {
                Ok(u) => Ok(u@),
                Err(e) => Err(e@),
            };
            match r {
                Err(m) => place_refused(view, *opts) == Some(m@),
                Ok(p) => {
                    let address = uri::conn_address(*opts, view->Ok_0)->0;
                    &&& place_refused(view, *opts) is None
                    &&& p.base@ == view->Ok_0
                    &&& p.target@ == (if opts.absolute_uri || opts.http2 {
                        view->Ok_0
                    } else {
                        uri::origin_of(view->Ok_0)
                    })
                    &&& p.endpoint@ == uri::endpoint(address.0, address.1)
                    &&& uri::opt_text(p.server_name) == uri::server_name(*opts, view->Ok_0)
                },
            }
        }),
{
    let base = match parsed {
        Ok(u) => u,
        Err(e) => {
            return Err(uri::complain("invalid base uri: ", e.as_str()));
        },
    };
    let (host, port) = match uri::get_conn_address(opts, &base) {
        Some(a) => a,
        None => {
            return Err("no host in uri".to_string());
        },
    };
    let endpoint = uri::build_conn_endpoint(host.as_str(), port);
    let server_name: Option<String> = match uri::tls_server_name(opts, &base) {
        Some(name) => Some(name.to_string()),
        None => None,
    };
    let target = uri::request_uri(&base, opts.absolute_uri || opts.http2);
    Ok(StreamPlace { base, target, endpoint, server_name })
}

/// Where the stream at a URI is.
pub fn locate_stream(given: &str, opts: &Options) -> (r: Result<StreamPlace, String>)
    ensures
        match r {
            Err(m) => place_refused(uri::parsed_uri(given@), *opts) == Some(m@),
            Ok(p) => {
                &&& place_refused(uri::parsed_uri(given@), *opts) is None
                &&& uri::parsed_uri(given@) == Ok::<uri::UriView, Seq<char>>(p.base@)
                &&& p.target@ == (if opts.absolute_uri || opts.http2 {
                    p.base@
                } else {
                    uri::origin_of(p.base@)
                })
                &&& uri::conn_address(*opts, p.base@) matches Some((host, port)) && p.endpoint@
                    == uri::endpoint(host, port)
                &&& uri::opt_text(p.server_name) == uri::server_name(*opts, p.base@)
            },
        },
{
    locate(uri::read_uri(given), opts)
}

/// The number of a stage, in the order in which they follow each other. A refusal
/// stands where the list of tools is waited for.
pub open spec fn rank(stage: Stage) -> int {
    match stage {
        Stage::Idle => 0,
        Stage::Stream => 1,
        Stage::Handshake => 2,
        Stage::Place => 3,
        Stage::Requests => 4,
        Stage::Initialize => 5,
        Stage::InitializeAnswer => 6,
        Stage::Initialized => 7,
        Stage::ToolsList => 8,
        Stage::ToolsAnswer | Stage::Refusal => 9,
        Stage::Over => 10,
    }
}

/// The start of a session does not go back: no event leads to an earlier stage,
/// and every event but a piece of the stream, or a response to a refusal, to a
/// later one. At the last stage, and nowhere else, the session has started or
/// cannot start.
pub proof fn law_start_goes_on(s: InitView, event: Event, version: Seq<char>)
    requires
        expects(s.stage, event),
    ensures
        ({
            let (t, a) = next(s, event, version);
            &&& rank(s.stage) <= rank(t.stage)
            &&& !(event is Piece) && !(s.stage is Refusal) ==> rank(s.stage) < rank(t.stage)
            &&& t.stage is Over <==> a is Ready || a is Fail
        }),
{
}

/// The place of the requests is known before the first of them is sent, and stays.
pub proof fn law_place_is_kept(s: InitView, event: Event, version: Seq<char>)
    requires
        expects(s.stage, event),
        rank(s.stage) >= 4 ==> s.place is Some,
    ensures
        ({
            let t = next(s, event, version).0;
            &&& 4 <= rank(t.stage) < 10 ==> t.place is Some
            &&& s.place is Some && rank(s.stage) >= 4 ==> t.place == s.place
        }),
{
}

/// A request for roots is refused, and the list of tools is waited for after that.
pub proof fn law_roots_are_refused(s: InitView, version: Seq<char>, id: mcp::RpcIdView)
    requires
        s.stage is ToolsAnswer,
        next_answer(s.buffer, s.data).0 matches Some(e) && mcp::classified(e)
            == mcp::IncomingView::Roots(id),
        mcp::refusal_bytes(id) is Ok,
    ensures
        ({
            let (t, a) = reading(s, version);
            &&& a == ActionView::Post(mcp::refusal_bytes(id)->Ok_0)
            &&& next(t, Event::Answered, version) == reading(
                InitView { stage: Stage::ToolsAnswer, ..t },
                version,
            )
        }),
{
}

/// How the stream is cut into pieces does not matter to the answer: one that was
/// read stays the same whatever follows, and where none was read, reading goes on
/// from what is left.
pub proof fn law_pieces_do_not_matter(buffer: Seq<char>, more: Seq<char>, data: Seq<char>)
    ensures
        ({
            let (event, left, kept) = next_answer(buffer, data);
            match event {
                Some(e) => next_answer(buffer + more, data) == (Some(e), left + more, kept),
                None => next_answer(buffer + more, data) == next_answer(left + more, kept),
            }
        }),
    decreases buffer.len(),
{
    let (event, left, kept) = sse::next_event(buffer, data);
    sse::law_pieces_do_not_matter(buffer, more, data);
    sse::lemma_next_event_shrinks(buffer, data);
    if let Some(e) = event {
        sse::lemma_next_event_shrinks(buffer + more, data);
        if mcp::classified(e) is Other {
            law_pieces_do_not_matter(left, more, kept);
        }
    }
}

/// The stream is connected to and asked for before anything else, then its first event is
/// read, and where that names a place the requests are connected to. The request that
/// starts the session is the first that is sent there.
pub proof fn law_start_of_a_session(s: InitView, version: Seq<char>)
    ensures
        next(s, Event::Start, version).1 is ConnectStream && next(s, Event::Start, version).0.stage is Stream,
        s.stage is Stream ==> next(s, Event::Connected, version).1 is Get && next(
            s,
            Event::Connected,
            version,
        ).0.stage is Handshake,
        s.stage is Requests && mcp::message_bytes(Message::Initialize, version) is Ok ==> {
            let (t, a) = next(s, Event::Connected, version);
            &&& t.stage is Initialize
            &&& a == ActionView::Post(mcp::message_bytes(Message::Initialize, version)->Ok_0)
        },
        s.stage is Initialized ==> {
            let (t, a) = next(s, Event::Answered, version);
            &&& t.stage is ToolsList
            &&& a == ActionView::Post(mcp::message_bytes(Message::ToolsList, version)->Ok_0)
        },
{
}

/// The first event of the stream names the place of the requests: white space around it
/// does not count, an empty one is refused, and where it leads is where `moved` leads from
/// the URI that was given.
pub proof fn law_place_is_the_one_named(s: InitView, b: Vec<u8>, version: Seq<char>)
    requires
        s.stage is Place,
    ensures
        ({
            let (event, left, kept) = sse::next_event(s.buffer + mcp::lossy_text(b@), s.data);
            let (t, a) = next(s, Event::Piece(b), version);
            match event {
                None => a is Read && t.stage is Place && t.buffer == left && t.data == kept,
                Some(e) => {
                    &&& text::trimmed(e).len() == 0 ==> a is Fail
                    &&& text::trimmed(e).len() > 0 ==> match uri::moved(s.given, text::trimmed(e)) {
                        Ok(u) => a is ConnectRequests && t.place == Some(u) && t.stage is Requests
                            && t.buffer == left && t.data == kept,
                        Err(_) => a is Fail,
                    }
                },
            }
        }),
{
}

/// The answer to the request that starts the session is the next event. Where it is one,
/// it is announced that the session has started; where it is none the session cannot
/// start.
pub proof fn law_answer_to_the_start(s: InitView, b: Vec<u8>, version: Seq<char>)
    requires
        s.stage is InitializeAnswer,
    ensures
        ({
            let (event, left, kept) = sse::next_event(s.buffer + mcp::lossy_text(b@), s.data);
            let (t, a) = next(s, Event::Piece(b), version);
            match event {
                None => a is Read && t.stage is InitializeAnswer && t.buffer == left && t.data == kept,
                Some(e) => if mcp::initialize_fault(vstd::utf8::encode_utf8(e)) is None {
                    &&& a == ActionView::Post(mcp::message_bytes(Message::Initialized, version)->Ok_0)
                    &&& t.stage is Initialized
                    &&& t.buffer == left && t.data == kept
                } else {
                    a is Fail
                },
            }
        }),
{
}

/// A session has started exactly where an answer was read, while the tools were waited
/// for, that lists tools.
pub proof fn law_when_a_session_has_started(s: InitView, b: Vec<u8>, version: Seq<char>)
    requires
        s.stage is ToolsAnswer,
    ensures
        ({
            let (event, left, kept) = next_answer(s.buffer + mcp::lossy_text(b@), s.data);
            let (t, a) = next(s, Event::Piece(b), version);
            &&& event is None ==> a is Read && t.stage is ToolsAnswer && t.buffer == left && t.data == kept
            &&& a is Ready <==> {
                &&& event matches Some(e) && mcp::classified(e) is Answer && (mcp::listed_tools(
                    vstd::utf8::encode_utf8(e),
                ) matches Ok(tools) && 1 <= tools.len() <= i64::MAX - 100)
            }
        }),
{
    lemma_answers_matter(s.buffer + mcp::lossy_text(b@), s.data);
}

proof fn lemma_answers_matter(buffer: Seq<char>, data: Seq<char>)
    ensures
        next_answer(buffer, data).0 matches Some(e) ==> !(mcp::classified(e) is Other),
    decreases buffer.len(),
{
    let (event, left, kept) = sse::next_event(buffer, data);
    sse::lemma_next_event_shrinks(buffer, data);
    if let Some(e) = event {
        if mcp::classified(e) is Other {
            lemma_answers_matter(left, kept);
        }
    }
}

/// While the tools are waited for, events that do not matter are passed over, and the first
/// that does is used.
pub proof fn law_other_events_are_passed_over(buffer: Seq<char>, data: Seq<char>)
    ensures
        next_answer(buffer, data).0 matches Some(e) ==> !(mcp::classified(e) is Other),
        ({
            let (event, left, kept) = sse::next_event(buffer, data);
            &&& event is Some && mcp::classified(event->0) is Other ==> next_answer(buffer, data)
                == next_answer(left, kept)
            &&& event is Some && !(mcp::classified(event->0) is Other) ==> next_answer(buffer, data) == (
                event,
                left,
                kept,
            )
            &&& event is None ==> next_answer(buffer, data) == (event, left, kept)
        }),
{
    lemma_answers_matter(buffer, data);
    sse::lemma_next_event_shrinks(buffer, data);
}

/// What fails ends the start of the session, and where the system gave a reason it is
/// told.
pub proof fn law_failures_are_told(s: InitView, event: Event, version: Seq<char>)
    requires
        expects(s.stage, event),
    ensures
        event is NotConnected || event is End ==> next(s, event, version).1 is Fail,
        match event {
            Event::NotReady(e) | Event::Failed(e) | Event::Broken(e) => next(s, event, version).1
                matches ActionView::Fail(m) && m.len() >= e@.len() && m.skip(m.len() - e@.len()) == e@,
            _ => true,
        },
{
    match event {
        Event::NotReady(e) => {
            let m = "POST request failed: POST: sender not ready: "@ + e@;
            assert(m.skip(m.len() - e@.len()) == e@);
        },
        Event::Failed(e) => {
            let m = if s.stage is Handshake {
                "SSE handshake request failed: "@ + e@
            } else {
                "POST request failed: POST failed: "@ + e@
            };
            assert(m.skip(m.len() - e@.len()) == e@);
        },
        Event::Broken(e) => {
            let m = awaited(s.stage) + "SSE read error: "@ + e@;
            assert(m.skip(m.len() - e@.len()) == e@);
        },
        _ => {},
    }
}

/// Calls go to the place that the stream has named, without a session.
pub proof fn law_calls_go_to_the_place(
    m: McpSetup,
    s: InitView,
    event: Seq<char>,
    opts: Options,
    u: uri::UriView,
)
    requires
        s.place == Some(u),
        ready_with(m, s, event, opts),
    ensures
        m.uri@ == u,
        m.session_id is None,
        m.tool_bodies@.len() == mcp::listed_tools(vstd::utf8::encode_utf8(event))->Ok_0.len(),
{
}

/// A stream can be reached where its URI is one and a host is known.
pub proof fn law_place_of_the_stream(u: uri::UriView, e: Seq<char>, opts: Options)
    ensures
        place_refused(Ok(u), opts) is None <==> u.host is Some || opts.host is Some,
        place_refused(Err(e), opts) is Some,
{
}

/// Whatever can come of an action is expected in the stage that the action leads to.
pub proof fn law_what_comes_of_an_action_is_expected(
    s: InitView,
    event: Event,
    version: Seq<char>,
    e: String,
    b: Vec<u8>,
)
    requires
        expects(s.stage, event),
    ensures
        ({
            let (t, a) = next(s, event, version);
            &&& a is ConnectStream || a is ConnectRequests ==> expects(t.stage, Event::Connected) && expects(
                t.stage,
                Event::NotConnected,
            )
            &&& a is Get ==> expects(t.stage, Event::Answered) && expects(t.stage, Event::Failed(e))
            &&& a is Read ==> expects(t.stage, Event::Piece(b)) && expects(t.stage, Event::Broken(e))
                && expects(t.stage, Event::End)
            &&& a is Post ==> expects(t.stage, Event::Answered) && expects(t.stage, Event::NotReady(e))
                && expects(t.stage, Event::Failed(e))
        }),
        expects(Stage::Idle, Event::Start),
{
}

} // verus!
