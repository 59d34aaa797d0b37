//! Starting a session with a tool server over the connection that the calls will
//! use: each answer comes with the response to its request.
use crate::mcp;
use crate::mcp::{McpSetup, Message};
use crate::options::Options;
use crate::schema::ToolView;
use crate::uri;
use crate::uri::Uri;
use vstd::prelude::*;

verus! {

/// How far the start of a session has come: what is waited for.
#[derive(Clone, Copy, Debug, PartialEq, Eq, Structural)]
pub enum Stage {
    /// Nothing was sent yet.
    Idle,
    /// The head of the response to the request that starts the session.
    Initialize,
    /// The body of that response.
    InitializeBody,
    /// The head of the response to the notification that it has started.
    Initialized,
    /// The body of that response.
    InitializedBody,
    /// The head of the response to the request for the tools.
    ToolsList,
    /// The body of that response.
    ToolsListBody,
    /// Nothing: the session has started, or it cannot start.
    Over,
}

/// What came of an action.
#[derive(Debug)]
pub enum Event {
    /// Nothing was done yet.
    Start,
    /// The connection takes no request.
    NotReady(String),
    /// The request was not answered.
    Failed(String),
    /// The head of a response.
    Head {
        status: u16,
        /// The value of `Mcp-Session-Id`, where it is a text.
        session: Option<String>,
        /// The value of `Content-Type`, where it is a text.
        content_type: Option<String>,
    },
    /// The body of a response.
    Body(Vec<u8>),
    /// The body of a response could not be read.
    Broken(String),
}

/// What to do next.
#[derive(Debug)]
pub enum Action {
    /// Send a request with this body, in this session.
    Post { body: Vec<u8>, session: Option<String> },
    /// Read the body of the response.
    ReadBody,
    /// The session has started.
    Ready(McpSetup),
    /// The session cannot start.
    Fail(String),
}

/// `Action`, as mathematical values. What a session is set up with is left out.
pub enum ActionView {
    Post(Seq<u8>, Option<Seq<char>>),
    ReadBody,
    Ready,
    Fail(Seq<char>),
}

impl View for Action {
    type V = ActionView;

    open spec fn view(&self) -> ActionView {
        match *self {
            Action::Post { body, session } => ActionView::Post(body@, uri::opt_text(session)),
            Action::ReadBody => ActionView::ReadBody,
            Action::Ready(_) => ActionView::Ready,
            Action::Fail(m) => ActionView::Fail(m@),
        }
    }
}

/// How far the start of a session has come.
#[verifier::ext_equal]
pub struct InitView {
    pub stage: Stage,
    /// The session, where the server has named one.
    pub session: Option<Seq<char>>,
    /// The form of the last response.
    pub content_type: Option<Seq<char>>,
}

/// Whether an event can come of what was done.
pub open spec fn expects(stage: Stage, event: Event) -> bool {
    match event {
        Event::Start => stage is Idle,
        Event::NotReady(_) | Event::Failed(_) => stage is Initialize || stage is Initialized
            || stage is ToolsList,
        Event::Head { status, .. } => (stage is Initialize || stage is Initialized
            || stage is ToolsList) && 100 <= status < 1000,
        Event::Body(_) | Event::Broken(_) => stage is InitializeBody || stage is InitializedBody
            || stage is ToolsListBody,
    }
}

/// What a request is called in a complaint.
pub open spec fn context(stage: Stage) -> Seq<char> {
    match stage {
        Stage::Initialize | Stage::InitializeBody => "initialize"@,
        Stage::Initialized => "initialized notification"@,
        _ => "tools/list"@,
    }
}

/// The session cannot start.
pub open spec fn failing(s: InitView, why: Seq<char>) -> (InitView, ActionView) {
    (InitView { stage: Stage::Over, ..s }, ActionView::Fail(why))
}

/// A message is sent.
pub open spec fn sending(
    s: InitView,
    bytes: Result<Seq<u8>, Seq<char>>,
    session: Option<Seq<char>>,
    stage: Stage,
) -> (InitView, ActionView) {
    match bytes {
        Ok(b) => (InitView { stage, ..s }, ActionView::Post(b, session)),
        Err(e) => failing(s, e),
    }
}

/// The tools are asked for.
pub open spec fn asking(s: InitView, version: Seq<char>) -> (InitView, ActionView) {
    sending(s, mcp::message_bytes(Message::ToolsList, version), s.session, Stage::ToolsList)
}

/// What follows the head of a response.
pub open spec fn after_head(
    s: InitView,
    status: u16,
    session: Option<Seq<char>>,
    content_type: Option<Seq<char>>,
) -> (InitView, ActionView) {
    match s.stage {
        Stage::Initialize => if status != 200 {
            failing(s, mcp::status_complaint("initialize request"@, status))
        } else {
            (
                InitView { stage: Stage::InitializeBody, session, content_type },
                ActionView::ReadBody,
            )
        },
        Stage::Initialized => if status != 200 && status != 202 && status != 204 {
            failing(s, mcp::status_complaint("initialized notification"@, status))
        } else {
            (InitView { stage: Stage::InitializedBody, ..s }, ActionView::ReadBody)
        },
        _ => if status != 200 {
            failing(s, mcp::status_complaint("tools/list request"@, status))
        } else {
            (
                InitView { stage: Stage::ToolsListBody, content_type, ..s },
                ActionView::ReadBody,
            )
        },
    }
}

/// What follows the answer to the request that starts the session.
pub open spec fn after_initialize(s: InitView, body: Seq<u8>, version: Seq<char>) -> (
    InitView,
    ActionView,
) {
    match mcp::json_in(s.content_type, body) {
        Err(e) => failing(s, e),
        Ok(json) => match mcp::initialize_fault(json) {
            Some(e) => failing(s, "failed to parse initialize response: "@ + e),
            None => if !mcp::session_fits(s.session) {
                failing(s, "failed to parse header value"@)
            } else {
                sending(
                    s,
                    mcp::message_bytes(Message::Initialized, version),
                    s.session,
                    Stage::Initialized,
                )
            },
        },
    }
}

/// What follows the answer to the request for the tools.
pub open spec fn after_tools(s: InitView, body: Seq<u8>) -> (InitView, ActionView) {
    match mcp::json_in(s.content_type, body) {
        Err(e) => failing(s, e),
        Ok(json) => match mcp::setup_refused(mcp::listed_tools(json)) {
            Some(e) => failing(s, e),
            None => (InitView { stage: Stage::Over, ..s }, ActionView::Ready),
        },
    }
}

/// What follows an event, and how far the start of the session has come then.
pub open spec fn next(s: InitView, event: Event, version: Seq<char>) -> (InitView, ActionView) {
    match event {
        Event::Start => sending(
            s,
            mcp::message_bytes(Message::Initialize, version),
            None,
            Stage::Initialize,
        ),
        Event::NotReady(e) => failing(s, context(s.stage) + ": sender not ready: "@ + e@),
        Event::Failed(e) => failing(s, context(s.stage) + " failed: "@ + e@),
        Event::Head { status, session, content_type } => after_head(
            s,
            status,
            uri::opt_text(session),
            uri::opt_text(content_type),
        ),
        Event::Broken(e) => if s.stage is InitializedBody {
            asking(s, version)
        } else {
            failing(s, "failed to read "@ + context(s.stage) + " response body: "@ + e@)
        },
        Event::Body(b) => if s.stage is InitializedBody {
            asking(s, version)
        } else if s.stage is InitializeBody {
            after_initialize(s, b@, version)
        } else {
            after_tools(s, b@)
        },
    }
}

/// The tools in the body of a response, where it is an answer that lists them.
pub open spec fn tools_in(s: InitView, body: Seq<u8>) -> Seq<ToolView> {
    mcp::listed_tools(mcp::json_in(s.content_type, body)->Ok_0)->Ok_0
}

/// The start of a session.
#[derive(Debug)]
pub struct StreamableInit {
    stage: Stage,
    session: Option<String>,
    content_type: Option<String>,
}

impl View for StreamableInit {
    type V = InitView;

    closed spec fn view(&self) -> InitView {
        InitView {
            stage: self.stage,
            session: uri::opt_text(self.session),
            content_type: uri::opt_text(self.content_type),
        }
    }
}

impl StreamableInit {
    /// A session that has not started.
    pub fn new() -> (r: StreamableInit)
        ensures
            r@ == (InitView { stage: Stage::Idle, session: None, content_type: None }),
    {
        StreamableInit { stage: Stage::Idle, session: None, content_type: None }
    }

    /// What is waited for.
    pub fn stage(&self) -> (s: Stage)
        ensures
            s == self@.stage,
    {
        self.stage
    }

    fn fail(&mut self, why: String) -> (a: Action)
        ensures
            (final(self)@, a@) == failing(old(self)@, why@),
    {
        self.stage = Stage::Over;
        Action::Fail(why)
    }

    /// Sends a message, in the session where `named` is set.
    fn send(&mut self, m: Message, named: bool, version: &str, stage: Stage) -> (a: Action)
        ensures
            (final(self)@, a@) == sending(
                old(self)@,
                mcp::message_bytes(m, version@),
                if named {
                    old(self)@.session
                } else {
                    None
                },
                stage,
            ),
    {
        match mcp::encode_message(&m, version) {
            Ok(body) => {
                let session: Option<String> = if named {
                    uri::copy_text(&self.session)
                } else {
                    None
                };
                self.stage = stage;
                Action::Post { body, session }
            },
            Err(e) => self.fail(e),
        }
    }

    /// What the last request is called in a complaint.
    fn context(&self) -> (s: &'static str)
        ensures
            s@ == context(self@.stage),
    {
        match self.stage {
            Stage::Initialize | Stage::InitializeBody => "initialize",
            Stage::Initialized => "initialized notification",
            _ => "tools/list",
        }
    }

    fn on_head(
        &mut self,
        status: u16,
        session: Option<String>,
        content_type: Option<String>,
    ) -> (a: Action)
        requires
            100 <= status < 1000,
        ensures
            (final(self)@, a@) == after_head(
                old(self)@,
                status,
                uri::opt_text(session),
                uri::opt_text(content_type),
            ),
    {
        match self.stage {
            Stage::Initialize => {
                if status != 200 {
                    return self.fail(mcp::complain_of_status("initialize request", status));
                }
                self.session = session;
                self.content_type = content_type;
                self.stage = Stage::InitializeBody;
            },
            Stage::Initialized => {
                if status != 200 && status != 202 && status != 204 {
                    return self.fail(mcp::complain_of_status("initialized notification", status));
                }
                self.stage = Stage::InitializedBody;
            },
            _ => {
                if status != 200 {
                    return self.fail(mcp::complain_of_status("tools/list request", status));
                }
                self.content_type = content_type;
                self.stage = Stage::ToolsListBody;
            },
        }
        Action::ReadBody
    }

    fn on_initialize(&mut self, body: Vec<u8>, version: &str) -> (a: Action)
        ensures
            (final(self)@, a@) == after_initialize(old(self)@, body@, version@),
    {
        let json = match mcp::json_body(&self.content_type, body) {
            Ok(j) => j,
            Err(e) => {
                return self.fail(e);
            },
        };
        match mcp::read_initialize(json.as_slice()) {
            Some(e) => {
                return self.fail(
                    uri::complain("failed to parse initialize response: ", e.as_str()),
                );
            },
            None => {},
        }
        if !mcp::can_name(&self.session) {
            return self.fail("failed to parse header value".to_string());
        }
        self.send(Message::Initialized, true, version, Stage::Initialized)
    }

    fn on_tools(&mut self, body: Vec<u8>, u: &Uri, opts: &Options) -> (a: Action)
        ensures
            (final(self)@, a@) == after_tools(old(self)@, body@),
            a matches Action::Ready(m) ==> mcp::is_setup(
                m,
                u@,
                tools_in(old(self)@, body@),
                old(self)@.session,
                *opts,
            ),
    {
        let json = match mcp::json_body(&self.content_type, body) {
            Ok(j) => j,
            Err(e) => {
                return self.fail(e);
            },
        };
        match mcp::set_up(mcp::read_tools(json.as_slice()), u, &self.session, opts) {
            Ok(m) => {
                self.stage = Stage::Over;
                Action::Ready(m)
            },
            Err(e) => self.fail(e),
        }
    }

    /// Says what to do next: the session is started, it is announced that it has
    /// started, and the tools are asked for and read. `version` is that of this
    /// program, `u` the URI of the server.
    pub fn step(&mut self, event: Event, u: &Uri, version: &str, opts: &Options) -> (a: Action)
        requires
            expects(old(self)@.stage, event),
        ensures
            (final(self)@, a@) == next(old(self)@, event, version@),
            a matches Action::Ready(m) ==> event matches Event::Body(b) && mcp::is_setup(
                m,
                u@,
                tools_in(old(self)@, b@),
                old(self)@.session,
                *opts,
            ),
    {
        match event {
            Event::Start => self.send(Message::Initialize, false, version, Stage::Initialize),
            Event::NotReady(e) => {
                let mut m = self.context().to_string();
                m.append(": sender not ready: ");
                m.append(e.as_str());
                self.fail(m)
            },
            Event::Failed(e) => {
                let mut m = self.context().to_string();
                m.append(" failed: ");
                m.append(e.as_str());
                self.fail(m)
            },
            Event::Head { status, session, content_type } => self.on_head(
                status,
                session,
                content_type,
            ),
            Event::Broken(e) => {
                if self.stage == Stage::InitializedBody {
                    return self.send(Message::ToolsList, true, version, Stage::ToolsList);
                }
                let mut m = "failed to read ".to_string();
                m.append(self.context());
                m.append(" response body: ");
                m.append(e.as_str());
                self.fail(m)
            },
            Event::Body(b) => {
                if self.stage == Stage::InitializedBody {
                    return self.send(Message::ToolsList, true, version, Stage::ToolsList);
                }
                if self.stage == Stage::InitializeBody {
                    return self.on_initialize(b, version);
                }
                self.on_tools(b, u, opts)
            },
        }
    }
}

/// The number of a stage, in the order in which they follow each other.
pub open spec fn rank(stage: Stage) -> int {
    match stage {
        Stage::Idle => 0,
        Stage::Initialize => 1,
        Stage::InitializeBody => 2,
        Stage::Initialized => 3,
        Stage::InitializedBody => 4,
        Stage::ToolsList => 5,
        Stage::ToolsListBody => 6,
        Stage::Over => 7,
    }
}

/// The start of a session comes to an end: each event leads to the stage that
/// follows, or to the last. At the last, and nowhere else, the session has started
/// or cannot start.
pub proof fn law_start_ends(s: InitView, event: Event, version: Seq<char>)
    requires
        expects(s.stage, event),
    ensures
        ({
            let (t, a) = next(s, event, version);
            &&& rank(t.stage) == rank(s.stage) + 1 || t.stage is Over
            &&& t.stage is Over <==> a is Ready || a is Fail
        }),
{
}

/// The request that starts a session names none. Each later one names the session
/// that the server has named in its answer, if it has.
pub proof fn law_session_is_kept(s: InitView, event: Event, version: Seq<char>)
    requires
        expects(s.stage, event),
    ensures
        ({
            let (t, a) = next(s, event, version);
            a matches ActionView::Post(_, session) ==> session == (if event is Start {
                None
            } else {
                t.session
            })
        }),
        match event {
            Event::Head { status, session, .. } => next(s, event, version).0.session == (
            if s.stage is Initialize && status == 200 {
                uri::opt_text(session)
            } else {
                s.session
            }),
            _ => next(s, event, version).0.session == s.session,
        },
{
}

/// A session starts with a request that names no session; behind a good answer it is
/// announced that it has started, and behind that the tools are asked for, each in the
/// session that the server has named.
pub proof fn law_messages_follow_each_other(
    s: InitView,
    event: Event,
    body: Vec<u8>,
    json: Seq<u8>,
    version: Seq<char>,
)
    ensures
        mcp::message_bytes(Message::Initialize, version) is Ok ==> next(s, Event::Start, version).1
            == ActionView::Post(mcp::message_bytes(Message::Initialize, version)->Ok_0, None)
            && next(s, Event::Start, version).0.stage is Initialize,
        s.stage is InitializeBody && mcp::json_in(s.content_type, body@) == Ok::<Seq<u8>, Seq<char>>(json)
            && mcp::initialize_fault(json) is None && mcp::session_fits(s.session) ==> {
            let (t, a) = next(s, Event::Body(body), version);
            &&& t.stage is Initialized
            &&& a == ActionView::Post(
                mcp::message_bytes(Message::Initialized, version)->Ok_0,
                s.session,
            )
        },
        s.stage is InitializedBody && (event is Body || event is Broken) ==> {
            let (t, a) = next(s, event, version);
            &&& t.stage is ToolsList
            &&& a == ActionView::Post(mcp::message_bytes(Message::ToolsList, version)->Ok_0, s.session)
        },
{
}

/// The answer to the request that starts a session has to be 200, and so has that to the
/// request for the tools. The notification may be answered by 200, 202 or 204. A good
/// head is followed by reading the body; with any other the session cannot start.
pub proof fn law_status_codes_of_answers(
    s: InitView,
    status: u16,
    session: Option<String>,
    content_type: Option<String>,
    version: Seq<char>,
)
    requires
        s.stage is Initialize || s.stage is Initialized || s.stage is ToolsList,
    ensures
        ({
            let (t, a) = next(s, Event::Head { status, session, content_type }, version);
            &&& status == 200 ==> a is ReadBody
            &&& s.stage is Initialized && (status == 202 || status == 204) ==> a is ReadBody
            &&& status != 200 && !(s.stage is Initialized) ==> a is Fail
            &&& status != 200 && status != 202 && status != 204 ==> a is Fail
            &&& a is ReadBody && s.stage is Initialize ==> t.stage is InitializeBody && t.content_type
                == uri::opt_text(content_type) && t.session == uri::opt_text(session)
            &&& a is ReadBody && s.stage is Initialized ==> t.stage is InitializedBody
            &&& a is ReadBody && s.stage is ToolsList ==> t.stage is ToolsListBody && t.content_type
                == uri::opt_text(content_type)
        }),
{
}

/// A session has started exactly where the answer to the request for the tools was read
/// and lists tools.
pub proof fn law_when_a_session_has_started(s: InitView, event: Event, version: Seq<char>)
    requires
        expects(s.stage, event),
    ensures
        next(s, event, version).1 is Ready <==> {
            &&& s.stage is ToolsListBody
            &&& event matches Event::Body(b) && match mcp::json_in(s.content_type, b@) {
                Ok(json) => match mcp::listed_tools(json) {
                    Ok(tools) => 1 <= tools.len() <= i64::MAX - 100,
                    Err(_) => false,
                },
                Err(_) => false,
            }
        },
{
}

/// Where the connection takes no request, a request is not answered, or an answer that
/// matters cannot be read, the session cannot start, and the reason is told.
pub proof fn law_failures_are_told(s: InitView, event: Event, version: Seq<char>)
    requires
        expects(s.stage, event),
    ensures
        match event {
            Event::NotReady(e) | Event::Failed(e) => next(s, event, version).1 matches ActionView::Fail(m)
                && m.len() >= e@.len() && m.skip(m.len() - e@.len()) == e@,
            Event::Broken(e) => !(s.stage is InitializedBody) ==> (next(s, event, version).1
                matches ActionView::Fail(m) && m.len() >= e@.len() && m.skip(m.len() - e@.len()) == e@),
            _ => true,
        },
{
    match event {
        Event::NotReady(e) => {
            let m = context(s.stage) + ": sender not ready: "@ + e@;
            assert(m.skip(m.len() - e@.len()) == e@);
        },
        Event::Failed(e) => {
            let m = context(s.stage) + " failed: "@ + e@;
            assert(m.skip(m.len() - e@.len()) == e@);
        },
        Event::Broken(e) => {
            let m = "failed to read "@ + context(s.stage) + " response body: "@ + e@;
            assert(m.skip(m.len() - e@.len()) == e@);
        },
        _ => {},
    }
}

/// A session cannot start where the answer to the request that starts it is none, or names
/// a session that cannot be named in a header.
pub proof fn law_bad_answers_end_the_start(s: InitView, body: Vec<u8>, json: Seq<u8>, version: Seq<char>)
    requires
        s.stage is InitializeBody,
    ensures
        mcp::json_in(s.content_type, body@) is Err ==> next(s, Event::Body(body), version).1 is Fail,
        mcp::json_in(s.content_type, body@) == Ok::<Seq<u8>, Seq<char>>(json) && mcp::initialize_fault(
            json,
        ) is Some ==> next(s, Event::Body(body), version).1 is Fail,
        !mcp::session_fits(s.session) ==> next(s, Event::Body(body), version).1 is Fail,
{
}

/// Whatever can come of an action is expected in the stage that the action leads to.
pub proof fn law_what_comes_of_an_action_is_expected(
    s: InitView,
    event: Event,
    version: Seq<char>,
    e: String,
    status: u16,
    session: Option<String>,
    content_type: Option<String>,
    b: Vec<u8>,
)
    requires
        expects(s.stage, event),
        100 <= status < 1000,
    ensures
        ({
            let (t, a) = next(s, event, version);
            &&& a is Post ==> expects(t.stage, Event::NotReady(e)) && expects(t.stage, Event::Failed(e))
                && expects(t.stage, Event::Head { status, session, content_type })
            &&& a is ReadBody ==> expects(t.stage, Event::Body(b)) && expects(t.stage, Event::Broken(e))
        }),
        expects(Stage::Idle, Event::Start),
{
}

} // verus!
