//! One task of a run: it opens connections and sends requests until the run is
//! over.
//!
//! A `Worker` makes the decisions. It is told what has happened, counts it, and
//! says what to do next. The clients differ in a few points, which a `Profile`
//! names.
use crate::client::ClientType;
use crate::http1;
use crate::options::Options;
use crate::stats;
use crate::stats::{RealtimeStats, Statistics};
use vstd::prelude::*;

verus! {

// ---------------------------------------------------------------------------
// When a task stops
// ---------------------------------------------------------------------------

/// Whether a task has done enough: it has made its requests, or the time is up.
pub open spec fn stops(total: u32, elapsed: u128, opts: Options) -> bool {
    ||| opts.requests matches Some(m) && total >= m
    ||| opts.duration matches Some(d) && elapsed > d
}

/// Whether a task has done enough. `elapsed` is in nanoseconds.
pub fn should_stop(total: u32, elapsed: u128, opts: &Options) -> (r: bool)
    ensures
        r == stops(total, elapsed, *opts),
{
    let enough: bool = match opts.requests {
        Some(m) => total >= m,
        None => false,
    };
    let late: bool = match opts.duration {
        Some(d) => elapsed > d,
        None => false,
    };
    enough || late
}

/// How many requests go over one connection.
pub open spec fn per_connection(opts: Options) -> u32 {
    if opts.cps {
        1
    } else {
        opts.rpc
    }
}

// ---------------------------------------------------------------------------
// How the clients differ
// ---------------------------------------------------------------------------

/// What sets a client apart from the others.
#[derive(Clone, Copy, Debug, PartialEq, Eq, Structural)]
pub struct Profile {
    /// Connections are counted.
    pub counts_conn: bool,
    /// The connection is waited for before each request.
    pub waits_before: bool,
    /// The connection is waited for after each response.
    pub waits_after: bool,
    /// A connection that is not ready is used all the same.
    pub stays: bool,
    /// Where the connection has served its requests, the next one is opened at
    /// once, without asking whether the task has done enough.
    pub in_place: bool,
    /// The number of requests over one connection is limited.
    pub limited: bool,
    /// The status code 202 counts as a success.
    pub accepts: bool,
    /// The status code is counted before the body is read.
    pub head_first: bool,
    /// The bytes of the response are read here.
    pub raw: bool,
    /// The bytes of the response are left to `http_wire`.
    pub decodes: bool,
}

/// What sets each client apart.
pub open spec fn profile_of(c: ClientType) -> Profile {
    Profile {
        counts_conn: c is HyperMcp || c is Compio || c is TokioUring || c is Monoio,
        waits_before: c is HyperH2,
        waits_after: c is Auto || c is Hyper || c is HyperChunked || c is HyperMcp,
        stays: c is Auto || c is Hyper || c is HyperChunked,
        in_place: c is Auto || c is Hyper || c is HyperChunked || c is HyperH2 || c is HyperLegacy
            || c is Reqwest,
        limited: !(c is HyperRt1),
        accepts: c is HyperMcp,
        head_first: c is HyperH2,
        raw: c is Compio || c is TokioUring || c is Monoio,
        decodes: c is Compio || c is Monoio,
    }
}

/// What sets a client apart from the others.
pub fn profile(c: ClientType) -> (p: Profile)
    ensures
        p == profile_of(c),
{
    let hyper: bool = match c {
        ClientType::Auto | ClientType::Hyper | ClientType::HyperChunked => true,
        _ => false,
    };
    let mcp: bool = match c {
        ClientType::HyperMcp => true,
        _ => false,
    };
    let h2: bool = match c {
        ClientType::HyperH2 => true,
        _ => false,
    };
    let raw: bool = match c {
        ClientType::Compio | ClientType::TokioUring | ClientType::Monoio => true,
        _ => false,
    };
    Profile {
        counts_conn: mcp || raw,
        waits_before: h2,
        waits_after: hyper || mcp,
        stays: hyper,
        in_place: hyper || h2 || match c {
            ClientType::HyperLegacy | ClientType::Reqwest => true,
            _ => false,
        },
        limited: match c {
            ClientType::HyperRt1 => false,
            _ => true,
        },
        accepts: mcp,
        head_first: h2,
        raw,
        decodes: match c {
            ClientType::Compio | ClientType::Monoio => true,
            _ => false,
        },
    }
}

// ---------------------------------------------------------------------------
// States, events and actions
// ---------------------------------------------------------------------------

/// What a task is about.
#[derive(Clone, Copy, Debug, PartialEq, Eq, Structural)]
pub enum Phase {
    /// Nothing has been done yet.
    Fresh,
    /// A connection is being opened.
    Connecting,
    /// A connection is being opened in place of one that has served its requests.
    Redialing,
    /// The session on top of the connection is being set up.
    Initializing,
    /// The connection is being waited for.
    Waiting,
    /// A request is under way.
    Sending,
    /// The body of a response is being read.
    Reading,
    /// The task is over.
    Over,
}

/// What has happened.
#[derive(Clone, Debug)]
pub enum Event {
    /// The task was started.
    Started,
    /// A connection is open.
    Connected,
    /// The session is set up: there are this many bodies to send in turn.
    Initialized(usize),
    /// The connection is ready for a request.
    Ready,
    /// The connection is not ready.
    NotReady(String),
    /// The connection was closed while it was waited for.
    Closed,
    /// A response was read: its status code, and how long it took in
    /// microseconds.
    Responded(u16, u64),
    /// The head of a response was read: its status code, and how long it took so
    /// far.
    Head(u16, u64),
    /// The body of a response was read: how long the response took.
    BodyRead(u64),
    /// The request is on its way.
    Written,
    /// Bytes were received: how long it took so far.
    Received(Vec<u8>, u64),
    /// The server closed the connection.
    Eof,
    /// Opening the connection, sending the request or reading the response failed.
    Failed(String),
}

/// What to do next.
#[derive(Clone, Copy, Debug, PartialEq, Eq, Structural)]
pub enum Action {
    /// Open a connection. Say so first where `announce` is set. `generation`
    /// counts how many were opened before.
    Connect { announce: bool, generation: u64 },
    /// Set up the session on top of the connection.
    Initialize,
    /// Wait until the connection is ready.
    Wait,
    /// Send a request: the body at this place, where there are bodies to send in
    /// turn. Ask the server to close the connection where `close` is set.
    Send { close: bool, body: Option<usize> },
    /// Read the body of the response.
    ReadBody,
    /// Receive more bytes.
    Receive,
    /// Stop.
    Stop,
}

/// A task, as mathematical values.
pub struct WorkerView {
    pub profile: Profile,
    /// Whether the URI of the task is announced when it first connects.
    pub announces: bool,
    /// Whether a session is set up on top of the first connection.
    pub initializes: bool,
    pub phase: Phase,
    /// The number of requests, and of failures to connect, up to the largest
    /// `u32`.
    pub total: u32,
    /// The number of requests that went over the connection.
    pub sent: u32,
    /// The number of connections that were opened, or tried.
    pub generation: u64,
    /// The number of bodies to send in turn, and the place of the next.
    pub bodies: nat,
    pub next_body: nat,
    /// What was received and not yet understood.
    pub buffer: Seq<u8>,
    pub stats: stats::StatisticsView,
}

/// Whether an event can happen in a phase.
pub open spec fn fits(w: WorkerView, e: Event) -> bool {
    match e {
        Event::Started => w.phase is Fresh,
        Event::Connected => w.phase is Connecting || w.phase is Redialing,
        Event::Initialized(_) => w.phase is Initializing,
        Event::Ready | Event::NotReady(_) | Event::Closed => w.phase is Waiting,
        Event::Responded(_, _) => w.phase is Sending && !w.profile.head_first && !w.profile.raw,
        Event::Head(_, _) => w.phase is Sending && w.profile.head_first,
        Event::BodyRead(_) => w.phase is Reading && w.profile.head_first,
        Event::Written => w.phase is Sending && w.profile.raw,
        Event::Received(_, _) | Event::Eof => w.phase is Reading && w.profile.raw,
        Event::Failed(_) => w.phase is Connecting || w.phase is Redialing || w.phase is Sending
            || w.phase is Reading,
    }
}

// ---------------------------------------------------------------------------
// What a task does
// ---------------------------------------------------------------------------

/// One more, up to the largest `u32`.
pub open spec fn one_more(n: u32) -> u32 {
    if n == u32::MAX {
        n
    } else {
        (n + 1) as u32
    }
}

/// The next generation, in 64 bits.
pub open spec fn next_generation(n: u64) -> u64 {
    if n == u64::MAX {
        0
    } else {
        (n + 1) as u64
    }
}

/// A task that opens a connection.
pub open spec fn dialing(w: WorkerView, phase: Phase) -> (WorkerView, Action) {
    (
        WorkerView {
            phase,
            generation: next_generation(w.generation),
            announces: w.announces && phase is Redialing,
            ..w
        },
        Action::Connect {
            announce: w.announces && phase is Connecting,
            generation: w.generation,
        },
    )
}

/// A task that starts over: it stops, or opens a connection.
pub open spec fn restarted(w: WorkerView, elapsed: u128, opts: Options) -> (WorkerView, Action) {
    if stops(w.total, elapsed, opts) {
        (WorkerView { phase: Phase::Over, ..w }, Action::Stop)
    } else {
        dialing(w, Phase::Connecting)
    }
}

/// A task that has failed at something, which counts like a request.
pub open spec fn failed(
    w: WorkerView,
    error: Option<Seq<char>>,
    elapsed: u128,
    opts: Options,
) -> (WorkerView, Action) {
    let s = match error {
        Some(e) => stats::with_error(w.stats, e),
        None => w.stats,
    };
    restarted(WorkerView { total: one_more(w.total), stats: s, ..w }, elapsed, opts)
}

/// The place of the body to send, where bodies are sent in turn.
pub open spec fn body_place(w: WorkerView) -> nat {
    if w.next_body >= w.bodies {
        0
    } else {
        w.next_body
    }
}

/// Whether this many requests are as many as go over one connection.
pub open spec fn served(w: WorkerView, sent: u32, opts: Options) -> bool {
    w.profile.limited && sent >= per_connection(opts)
}

/// Whether the server is asked to close the connection with this request: with the
/// last one that `--rpc` allows. `--cps` opens a connection for each request without
/// asking.
pub open spec fn asks_to_close(w: WorkerView, sent: u32, opts: Options) -> bool {
    w.profile.limited && sent >= opts.rpc
}

/// A task that sends a request.
pub open spec fn requesting(w: WorkerView, opts: Options) -> (WorkerView, Action) {
    let sent = one_more(w.sent);
    (
        WorkerView {
            phase: Phase::Sending,
            sent,
            next_body: if w.bodies == 0 {
                w.next_body
            } else {
                body_place(w) + 1
            },
            ..w
        },
        Action::Send {
            close: asks_to_close(w, sent, opts),
            body: if w.bodies == 0 {
                None
            } else {
                Some(body_place(w) as usize)
            },
        },
    )
}

/// A task that is about to send a request: some clients wait first.
pub open spec fn about_to_send(w: WorkerView, opts: Options) -> (WorkerView, Action) {
    if w.profile.waits_before {
        (WorkerView { phase: Phase::Waiting, ..w }, Action::Wait)
    } else {
        requesting(w, opts)
    }
}

/// A task whose connection is open.
pub open spec fn connected(w: WorkerView, opts: Options) -> (WorkerView, Action) {
    let v = WorkerView {
        sent: 0,
        buffer: Seq::empty(),
        stats: if w.profile.counts_conn {
            stats::with_conn(w.stats)
        } else {
            w.stats
        },
        ..w
    };
    if v.initializes && v.bodies == 0 {
        (WorkerView { phase: Phase::Initializing, ..v }, Action::Initialize)
    } else {
        about_to_send(v, opts)
    }
}

/// The statistics with one more response.
pub open spec fn with_response(w: WorkerView, status: u16) -> stats::StatisticsView {
    if w.profile.accepts && status == 202 {
        stats::with_ok(w.stats)
    } else {
        stats::with_status(w.stats, status)
    }
}

/// Whether a response was added to the shared counter of its kind.
pub open spec fn shows_response(w: WorkerView, status: u16, rt: RealtimeStats) -> bool {
    stats::counted_up(
        if status == 200 || (w.profile.accepts && status == 202) {
            rt.ok
        } else {
            rt.fail
        },
    )
}

/// A task whose request was answered. The response has been counted.
pub open spec fn answered(
    w: WorkerView,
    micros: u64,
    elapsed: u128,
    opts: Options,
) -> (WorkerView, Action) {
    let v = WorkerView {
        total: one_more(w.total),
        stats: stats::with_latency(w.stats, micros),
        ..w
    };
    if stops(v.total, elapsed, opts) {
        (WorkerView { phase: Phase::Over, ..v }, Action::Stop)
    } else if served(v, v.sent, opts) {
        if v.profile.in_place {
            dialing(v, Phase::Redialing)
        } else {
            restarted(v, elapsed, opts)
        }
    } else if v.profile.waits_after {
        (WorkerView { phase: Phase::Waiting, ..v }, Action::Wait)
    } else {
        about_to_send(v, opts)
    }
}

/// The frame of the response that was received.
pub open spec fn received_frame(w: WorkerView, buffer: Seq<u8>) -> Option<(nat, u16)> {
    if w.profile.decodes {
        http1::first_decoded(buffer)
    } else {
        http1::first_frame(buffer)
    }
}

/// A task whose connection is not ready.
pub open spec fn refused(w: WorkerView, text: Seq<char>, elapsed: u128, opts: Options) -> (
    WorkerView,
    Action,
) {
    let v = WorkerView { stats: stats::with_error(w.stats, text), ..w };
    if w.profile.stays {
        requesting(v, opts)
    } else {
        restarted(v, elapsed, opts)
    }
}

/// A task that has read a response.
pub open spec fn responded(
    w: WorkerView,
    status: u16,
    micros: u64,
    elapsed: u128,
    opts: Options,
) -> (WorkerView, Action) {
    answered(WorkerView { stats: with_response(w, status), ..w }, micros, elapsed, opts)
}

/// A task that has read the head of a response.
pub open spec fn head_read(
    w: WorkerView,
    status: u16,
    micros: u64,
    elapsed: u128,
    opts: Options,
) -> (WorkerView, Action) {
    if status == 200 {
        (
            WorkerView { stats: with_response(w, status), phase: Phase::Reading, ..w },
            Action::ReadBody,
        )
    } else {
        responded(w, status, micros, elapsed, opts)
    }
}

/// A task that has received bytes.
pub open spec fn received(
    w: WorkerView,
    bytes: Seq<u8>,
    micros: u64,
    elapsed: u128,
    opts: Options,
) -> (WorkerView, Action) {
    let all = w.buffer + bytes;
    match received_frame(w, all) {
        Some((n, status)) => responded(
            WorkerView { buffer: all.skip(n as int), ..w },
            status,
            micros,
            elapsed,
            opts,
        ),
        None => (WorkerView { buffer: all, ..w }, Action::Receive),
    }
}

/// What a task does next when something has happened.
pub open spec fn next(w: WorkerView, e: Event, elapsed: u128, opts: Options) -> (
    WorkerView,
    Action,
) {
    match e {
        Event::Started => restarted(w, elapsed, opts),
        Event::Connected => connected(w, opts),
        Event::Initialized(n) => requesting(WorkerView { bodies: n as nat, ..w }, opts),
        Event::Ready => requesting(w, opts),
        Event::NotReady(text) => refused(w, text@, elapsed, opts),
        Event::Closed => restarted(w, elapsed, opts),
        Event::Responded(status, micros) => responded(w, status, micros, elapsed, opts),
        Event::Head(status, micros) => head_read(w, status, micros, elapsed, opts),
        Event::BodyRead(micros) => answered(w, micros, elapsed, opts),
        Event::Written => (WorkerView { phase: Phase::Reading, ..w }, Action::Receive),
        Event::Received(bytes, micros) => received(w, bytes@, micros, elapsed, opts),
        Event::Eof => failed(w, None, elapsed, opts),
        Event::Failed(text) => failed(w, Some(text@), elapsed, opts),
    }
}

/// Whether what has happened was added to the shared counters: each response and
/// each error.
pub open spec fn shows(w: WorkerView, e: Event, rt: RealtimeStats) -> bool {
    match e {
        Event::NotReady(_) | Event::Failed(_) => stats::counted_up(rt.err),
        Event::Responded(status, _) | Event::Head(status, _) => shows_response(w, status, rt),
        Event::Received(bytes, _) => match received_frame(w, w.buffer + bytes@) {
            Some((_, status)) => shows_response(w, status, rt),
            None => true,
        },
        _ => true,
    }
}

/// One task of a run.
#[derive(Debug)]
pub struct Worker {
    profile: Profile,
    announces: bool,
    initializes: bool,
    phase: Phase,
    total: u32,
    sent: u32,
    generation: u64,
    bodies: usize,
    next_body: usize,
    buffer: Vec<u8>,
    stats: Statistics,
}

impl View for Worker {
    type V = WorkerView;

    closed spec fn view(&self) -> WorkerView {
        WorkerView {
            profile: self.profile,
            announces: self.announces,
            initializes: self.initializes,
            phase: self.phase,
            total: self.total,
            sent: self.sent,
            generation: self.generation,
            bodies: self.bodies as nat,
            next_body: self.next_body as nat,
            buffer: self.buffer@,
            stats: self.stats@,
        }
    }
}

/// A task that has done nothing yet.
pub open spec fn fresh(client: ClientType, cid: usize, bodies: usize, opts: Options) -> WorkerView {
    WorkerView {
        profile: profile_of(client),
        announces: cid < opts.uri@.len(),
        initializes: client is HyperMcp && !opts.mcp_sse,
        phase: Phase::Fresh,
        total: 0,
        sent: 0,
        generation: 0,
        bodies: bodies as nat,
        next_body: 0,
        buffer: Seq::empty(),
        stats: stats::no_statistics(opts.latency),
    }
}

impl Worker {
    /// Whether the statistics are well formed.
    pub closed spec fn wf(&self) -> bool {
        self.stats.wf()
    }

    /// A task that has done nothing yet. `bodies` is the number of bodies to send
    /// in turn, where they are known.
    pub fn new(client: ClientType, cid: usize, bodies: usize, opts: &Options) -> (w: Worker)
        ensures
            w.wf(),
            w@ == fresh(client, cid, bodies, *opts),
    {
        let w = Worker {
            profile: profile(client),
            announces: cid < opts.uri.len(),
            initializes: match client {
                ClientType::HyperMcp => !opts.mcp_sse,
                _ => false,
            },
            phase: Phase::Fresh,
            total: 0,
            sent: 0,
            generation: 0,
            bodies,
            next_body: 0,
            buffer: Vec::new(),
            stats: Statistics::new(opts.latency),
        };
        assert(w@.buffer == Seq::<u8>::empty());
        w
    }

    /// What the task has counted.
    pub fn into_statistics(self) -> (s: Statistics)
        requires
            self.wf(),
        ensures
            s.wf(),
            s@ == self@.stats,
    {
        self.stats
    }

    /// What the task is about.
    pub fn phase(&self) -> (p: Phase)
        ensures
            p == self@.phase,
    {
        self.phase
    }

    /// Opens a connection.
    fn dial(&mut self, redial: bool) -> (a: Action)
        requires
            old(self).wf(),
        ensures
            final(self).wf(),
            final(self)@ == dialing(
                old(self)@,
                if redial {
                    Phase::Redialing
                } else {
                    Phase::Connecting
                },
            ).0,
            a == dialing(
                old(self)@,
                if redial {
                    Phase::Redialing
                } else {
                    Phase::Connecting
                },
            ).1,
    {
        let generation: u64 = self.generation;
        let announce: bool = self.announces && !redial;
        self.generation = if generation == u64::MAX {
            0
        } else {
            generation + 1
        };
        self.announces = self.announces && redial;
        self.phase = if redial {
            Phase::Redialing
        } else {
            Phase::Connecting
        };
        Action::Connect { announce, generation }
    }

    /// Starts over: stops, or opens a connection.
    fn restart(&mut self, elapsed: u128, opts: &Options) -> (a: Action)
        requires
            old(self).wf(),
        ensures
            final(self).wf(),
            final(self)@ == restarted(old(self)@, elapsed, *opts).0,
            a == restarted(old(self)@, elapsed, *opts).1,
    {
        if should_stop(self.total, elapsed, opts) {
            self.phase = Phase::Over;
            Action::Stop
        } else {
            self.dial(false)
        }
    }

    /// Counts a request, or a failure to connect.
    fn count_request(&mut self)
        requires
            old(self).wf(),
        ensures
            final(self).wf(),
            final(self)@ == (WorkerView { total: one_more(old(self)@.total), ..old(self)@ }),
    {
        if self.total < u32::MAX {
            self.total = self.total + 1;
        }
    }

    /// Whether this many requests are as many as go over one connection.
    fn has_served(&self, sent: u32, opts: &Options) -> (r: bool)
        ensures
            r == served(self@, sent, *opts),
    {
        let limit: u32 = if opts.cps {
            1
        } else {
            opts.rpc
        };
        self.profile.limited && sent >= limit
    }

    /// Sends a request.
    fn request(&mut self, opts: &Options) -> (a: Action)
        requires
            old(self).wf(),
        ensures
            final(self).wf(),
            final(self)@ == requesting(old(self)@, *opts).0,
            a == requesting(old(self)@, *opts).1,
    {
        let place: usize = if self.next_body >= self.bodies {
            0
        } else {
            self.next_body
        };
        let sent: u32 = if self.sent < u32::MAX {
            self.sent + 1
        } else {
            self.sent
        };
        let close: bool = self.profile.limited && sent >= opts.rpc;
        let body: Option<usize> = if self.bodies == 0 {
            None
        } else {
            Some(place)
        };
        if self.bodies > 0 {
            self.next_body = place + 1;
        }
        self.sent = sent;
        self.phase = Phase::Sending;
        Action::Send { close, body }
    }

    /// Sends a request, or waits first.
    fn prepare(&mut self, opts: &Options) -> (a: Action)
        requires
            old(self).wf(),
        ensures
            final(self).wf(),
            final(self)@ == about_to_send(old(self)@, *opts).0,
            a == about_to_send(old(self)@, *opts).1,
    {
        if self.profile.waits_before {
            self.phase = Phase::Waiting;
            Action::Wait
        } else {
            self.request(opts)
        }
    }

    /// Uses a connection that is open.
    fn connect(&mut self, opts: &Options) -> (a: Action)
        requires
            old(self).wf(),
        ensures
            final(self).wf(),
            final(self)@ == connected(old(self)@, *opts).0,
            a == connected(old(self)@, *opts).1,
    {
        self.sent = 0;
        self.buffer = Vec::new();
        assert(self.buffer@ == Seq::<u8>::empty());
        if self.profile.counts_conn {
            self.stats.inc_conn();
        }
        if self.initializes && self.bodies == 0 {
            self.phase = Phase::Initializing;
            Action::Initialize
        } else {
            self.prepare(opts)
        }
    }

    /// Counts a response by its status code.
    fn count_response(&mut self, status: u16, rt: &RealtimeStats)
        requires
            old(self).wf(),
        ensures
            final(self).wf(),
            final(self)@ == (WorkerView {
                stats: with_response(old(self)@, status),
                ..old(self)@
            }),
            shows_response(old(self)@, status, *rt),
    {
        if self.profile.accepts && status == 202 {
            self.stats.inc_ok(rt);
        } else {
            self.stats.set_http_status(status, rt);
        }
    }

    /// Goes on behind a response that has been counted.
    fn finish(&mut self, micros: u64, elapsed: u128, opts: &Options) -> (a: Action)
        requires
            old(self).wf(),
        ensures
            final(self).wf(),
            final(self)@ == answered(old(self)@, micros, elapsed, *opts).0,
            a == answered(old(self)@, micros, elapsed, *opts).1,
    {
        self.stats.record_latency(micros);
        self.count_request();
        if should_stop(self.total, elapsed, opts) {
            self.phase = Phase::Over;
            return Action::Stop;
        }
        if self.has_served(self.sent, opts) {
            if self.profile.in_place {
                return self.dial(true);
            }
            return self.restart(elapsed, opts);
        }
        if self.profile.waits_after {
            self.phase = Phase::Waiting;
            return Action::Wait;
        }
        self.prepare(opts)
    }

    /// Takes the response from what was received, if it is complete.
    fn take_response(&mut self) -> (r: Option<u16>)
        requires
            old(self).wf(),
        ensures
            final(self).wf(),
            match received_frame(old(self)@, old(self)@.buffer) {
                Some((n, status)) => r == Some(status) && final(self)@ == (WorkerView {
                    buffer: old(self)@.buffer.skip(n as int),
                    ..old(self)@
                }),
                None => r is None && final(self)@ == old(self)@,
            },
    {
        if self.profile.decodes {
            http1::take_decoded(&mut self.buffer)
        } else {
            http1::take_response(&mut self.buffer)
        }
    }

    /// Goes on where the connection is not ready.
    fn refuse(&mut self, text: &str, elapsed: u128, opts: &Options, rt: &RealtimeStats) -> (a:
        Action)
        requires
            old(self).wf(),
        ensures
            final(self).wf(),
            final(self)@ == refused(old(self)@, text@, elapsed, *opts).0,
            a == refused(old(self)@, text@, elapsed, *opts).1,
            stats::counted_up(rt.err),
    {
        self.stats.set_error(text, rt);
        if self.profile.stays {
            self.request(opts)
        } else {
            self.restart(elapsed, opts)
        }
    }

    /// Goes on behind a response.
    fn respond(
        &mut self,
        status: u16,
        micros: u64,
        elapsed: u128,
        opts: &Options,
        rt: &RealtimeStats,
    ) -> (a: Action)
        requires
            old(self).wf(),
        ensures
            final(self).wf(),
            final(self)@ == responded(old(self)@, status, micros, elapsed, *opts).0,
            a == responded(old(self)@, status, micros, elapsed, *opts).1,
            shows_response(old(self)@, status, *rt),
    {
        self.count_response(status, rt);
        self.finish(micros, elapsed, opts)
    }

    /// Goes on behind the head of a response.
    fn read_head(
        &mut self,
        status: u16,
        micros: u64,
        elapsed: u128,
        opts: &Options,
        rt: &RealtimeStats,
    ) -> (a: Action)
        requires
            old(self).wf(),
        ensures
            final(self).wf(),
            final(self)@ == head_read(old(self)@, status, micros, elapsed, *opts).0,
            a == head_read(old(self)@, status, micros, elapsed, *opts).1,
            shows_response(old(self)@, status, *rt),
    {
        if status == 200 {
            self.count_response(status, rt);
            self.phase = Phase::Reading;
            Action::ReadBody
        } else {
            self.respond(status, micros, elapsed, opts, rt)
        }
    }

    /// Goes on behind bytes that were received.
    fn receive(
        &mut self,
        bytes: Vec<u8>,
        micros: u64,
        elapsed: u128,
        opts: &Options,
        rt: &RealtimeStats,
    ) -> (a: Action)
        requires
            old(self).wf(),
        ensures
            final(self).wf(),
            final(self)@ == received(old(self)@, bytes@, micros, elapsed, *opts).0,
            a == received(old(self)@, bytes@, micros, elapsed, *opts).1,
            match received_frame(old(self)@, old(self)@.buffer + bytes@) {
                Some((_, status)) => shows_response(old(self)@, status, *rt),
                None => true,
            },
    {
        let mut more = bytes;
        self.buffer.append(&mut more);
        match self.take_response() {
            Some(status) => self.respond(status, micros, elapsed, opts, rt),
            None => Action::Receive,
        }
    }

    /// Goes on behind a failure.
    fn fail(
        &mut self,
        text: Option<String>,
        elapsed: u128,
        opts: &Options,
        rt: &RealtimeStats,
    ) -> (a: Action)
        requires
            old(self).wf(),
        ensures
            final(self).wf(),
            final(self)@ == failed(old(self)@, crate::uri::opt_text(text), elapsed, *opts).0,
            a == failed(old(self)@, crate::uri::opt_text(text), elapsed, *opts).1,
            text is Some ==> stats::counted_up(rt.err),
    {
        match text {
            Some(t) => self.stats.set_error(t.as_str(), rt),
            None => {},
        }
        self.count_request();
        self.restart(elapsed, opts)
    }

    /// Sends the first request of a session.
    fn initialize(&mut self, bodies: usize, opts: &Options) -> (a: Action)
        requires
            old(self).wf(),
        ensures
            final(self).wf(),
            final(self)@ == requesting(
                WorkerView { bodies: bodies as nat, ..old(self)@ },
                *opts,
            ).0,
            a == requesting(WorkerView { bodies: bodies as nat, ..old(self)@ }, *opts).1,
    {
        self.bodies = bodies;
        self.request(opts)
    }

    /// Starts to read.
    fn start_reading(&mut self) -> (a: Action)
        requires
            old(self).wf(),
        ensures
            final(self).wf(),
            final(self)@ == (WorkerView { phase: Phase::Reading, ..old(self)@ }),
            a == Action::Receive,
    {
        self.phase = Phase::Reading;
        Action::Receive
    }

    /// Counts what has happened and says what to do next.
    ///
    /// `elapsed` is the time since the task was started, in nanoseconds.
    pub fn step(
        &mut self,
        event: Event,
        elapsed: u128,
        opts: &Options,
        rt: &RealtimeStats,
    ) -> (a: Action)
        requires
            old(self).wf(),
            fits(old(self)@, event),
        ensures
            final(self).wf(),
            final(self)@ == next(old(self)@, event, elapsed, *opts).0,
            a == next(old(self)@, event, elapsed, *opts).1,
            shows(old(self)@, event, *rt),
    {
        match event {
            Event::Started => self.restart(elapsed, opts),
            Event::Connected => self.connect(opts),
            Event::Initialized(n) => self.initialize(n, opts),
            Event::Ready => self.request(opts),
            Event::NotReady(text) => self.refuse(text.as_str(), elapsed, opts, rt),
            Event::Closed => self.restart(elapsed, opts),
            Event::Responded(status, micros) => self.respond(status, micros, elapsed, opts, rt),
            Event::Head(status, micros) => self.read_head(status, micros, elapsed, opts, rt),
            Event::BodyRead(micros) => self.finish(micros, elapsed, opts),
            Event::Written => self.start_reading(),
            Event::Received(bytes, micros) => self.receive(bytes, micros, elapsed, opts, rt),
            Event::Eof => self.fail(None, elapsed, opts, rt),
            Event::Failed(text) => self.fail(Some(text), elapsed, opts, rt),
        }
    }
}

// ---------------------------------------------------------------------------
// What holds of a task
// ---------------------------------------------------------------------------

/// Whether a task has kept to the number of requests it may make: while it goes
/// on, one more is allowed.
pub open spec fn within_limit(w: WorkerView, opts: Options) -> bool {
    opts.requests matches Some(m) ==> {
        &&& w.total <= m || w.phase is Fresh
        &&& w.total < m || w.phase is Fresh || w.phase is Over
    }
}

/// A task never makes more requests than it may: a task that has done nothing
/// keeps to the limit, and every step keeps to it.
pub proof fn law_requests_are_limited(
    w: WorkerView,
    e: Event,
    elapsed: u128,
    opts: Options,
)
    requires
        w.phase is Fresh ==> w.total == 0,
        within_limit(w, opts),
        fits(w, e),
    ensures
        within_limit(next(w, e, elapsed, opts).0, opts),
        !(next(w, e, elapsed, opts).0.phase is Fresh),
        opts.requests matches Some(m) ==> next(w, e, elapsed, opts).0.total <= m,
{
}

/// A step counts at most one request, and no step takes one back.
pub proof fn law_total_grows_by_one(w: WorkerView, e: Event, elapsed: u128, opts: Options)
    requires
        fits(w, e),
    ensures
        w.total <= next(w, e, elapsed, opts).0.total <= w.total + 1,
{
}

/// How many requests go over one connection at most: one at least.
pub open spec fn connection_limit(opts: Options) -> u32 {
    if per_connection(opts) == 0 {
        1
    } else {
        per_connection(opts)
    }
}

/// Whether a task has kept to the number of requests over one connection: while
/// it waits for the connection, one more is allowed.
pub open spec fn within_connection(w: WorkerView, opts: Options) -> bool {
    w.profile.limited ==> match w.phase {
        Phase::Waiting | Phase::Initializing => w.sent < connection_limit(opts),
        Phase::Sending | Phase::Reading => 0 < w.sent <= connection_limit(opts),
        _ => true,
    }
}

/// No connection serves more requests than it may: every step keeps to the limit.
pub proof fn law_connections_are_limited(
    w: WorkerView,
    e: Event,
    elapsed: u128,
    opts: Options,
)
    requires
        within_connection(w, opts),
        fits(w, e),
    ensures
        within_connection(next(w, e, elapsed, opts).0, opts),
{
}

/// Whether the request under way is the last over its connection.
pub open spec fn on_last_request(w: WorkerView, opts: Options) -> bool {
    served(w, w.sent, opts)
}

/// The server is asked to close the connection with no other request than the last
/// that goes over it, and with that one wherever it is the last for `--rpc`, and not
/// for `--cps` alone. Which request is under way does not change while its response is
/// read. Once it is read, another connection is opened where the request was the
/// last, and otherwise the connection is kept, unless the task stops.
pub proof fn law_close_marks_the_last_request(
    w: WorkerView,
    e: Event,
    elapsed: u128,
    opts: Options,
)
    requires
        fits(w, e),
    ensures
        ({
            let (v, action) = next(w, e, elapsed, opts);
            let under_way = w.phase is Sending || w.phase is Reading;
            &&& action matches Action::Send { close, .. } ==> {
                &&& close ==> on_last_request(v, opts)
                &&& !opts.cps ==> close == on_last_request(v, opts)
                &&& close == (v.profile.limited && v.sent >= opts.rpc)
            }
            &&& action is ReadBody || action is Receive ==> on_last_request(v, opts)
                == on_last_request(w, opts)
            &&& under_way && !(e is Failed) && !(e is Eof) ==> {
                &&& action is Connect ==> on_last_request(w, opts)
                &&& action is Send || action is Wait ==> !on_last_request(w, opts)
            }
        }),
{
}

/// The task that announces its URI does so once.
pub proof fn law_announced_once(w: WorkerView, e: Event, elapsed: u128, opts: Options)
    requires
        fits(w, e),
    ensures
        next(w, e, elapsed, opts).1 matches Action::Connect { announce, .. } ==> (announce
            ==> w.announces && !next(w, e, elapsed, opts).0.announces),
        next(w, e, elapsed, opts).0.announces ==> w.announces,
{
}

/// Bodies are sent in turn: the place of each is that of the one before plus
/// one, around the end.
pub proof fn law_bodies_take_turns(w: WorkerView, opts: Options)
    requires
        0 < w.bodies <= usize::MAX,
        w.next_body <= w.bodies,
    ensures
        ({
            let (v, action) = requesting(w, opts);
            &&& action matches Action::Send { body: Some(i), .. } && i as nat == w.next_body
                % w.bodies
            &&& v.bodies == w.bodies && v.next_body <= v.bodies
            &&& v.next_body % v.bodies == (w.next_body + 1) % w.bodies
        }),
{
    let b = w.bodies;
    if w.next_body == b {
        vstd::arithmetic::div_mod::lemma_mod_self_0(b as int);
        vstd::arithmetic::div_mod::lemma_mod_add_multiples_vanish(1, b as int);
    } else {
        vstd::arithmetic::div_mod::lemma_small_mod(w.next_body, b);
    }
}

/// A task that is over stays over: nothing can happen to it any more.
pub proof fn law_over_is_final(w: WorkerView, e: Event)
    requires
        w.phase is Over,
    ensures
        !fits(w, e),
{
}

/// A task stops exactly where it is over, and only where it has done enough.
pub proof fn law_stops_when_done(w: WorkerView, e: Event, elapsed: u128, opts: Options)
    requires
        fits(w, e),
    ensures
        ({
            let (v, action) = next(w, e, elapsed, opts);
            &&& action is Stop <==> v.phase is Over
            &&& action is Stop ==> stops(v.total, elapsed, opts)
        }),
{
}

/// When a task has done enough: after as many requests as were asked for, or after
/// the time that was asked for. Where neither was, it never has.
pub proof fn law_enough_is_what_was_asked_for(total: u32, elapsed: u128, opts: Options)
    ensures
        opts.requests is None && opts.duration is None ==> !stops(total, elapsed, opts),
        opts.requests matches Some(n) ==> total >= n ==> stops(total, elapsed, opts),
        opts.duration matches Some(d) ==> elapsed > d ==> stops(total, elapsed, opts),
        stops(total, elapsed, opts) ==> (opts.requests matches Some(n) && total >= n) || (
        opts.duration matches Some(d) && elapsed > d),
{
}

/// The status code of the response that an event brings, if it brings one: of its
/// head, or of the whole.
pub open spec fn brings_status(w: WorkerView, e: Event) -> Option<u16> {
    match e {
        Event::Responded(status, _) => Some(status),
        Event::Head(status, _) => Some(status),
        Event::Received(b, _) => match (if w.profile.decodes {
            http1::first_decoded(w.buffer + b@)
        } else {
            http1::first_frame(w.buffer + b@)
        }) {
            Some((_, status)) => Some(status),
            None => None,
        },
        _ => None,
    }
}

/// How long the response took that an event completes, if it completes one. The
/// head of a response completes it unless a body is read behind it.
pub open spec fn completes(w: WorkerView, e: Event) -> Option<u64> {
    match e {
        Event::Responded(_, m) => Some(m),
        Event::BodyRead(m) => Some(m),
        Event::Head(status, m) => if status == 200 {
            None
        } else {
            Some(m)
        },
        Event::Received(_, m) => if brings_status(w, e) is Some {
            Some(m)
        } else {
            None
        },
        _ => None,
    }
}

/// What a step changes of the statistics: a connection, a response, a latency or an
/// error.
proof fn lemma_step_statistics(w: WorkerView, e: Event, elapsed: u128, opts: Options)
    requires
        fits(w, e),
    ensures
        next(w, e, elapsed, opts).0.stats == ({
            let a = match brings_status(w, e) {
                Some(status) => with_response(w, status),
                None => w.stats,
            };
            let b = match completes(w, e) {
                Some(m) => stats::with_latency(a, m),
                None => a,
            };
            match e {
                Event::Connected => if w.profile.counts_conn {
                    stats::with_conn(b)
                } else {
                    b
                },
                Event::NotReady(s) => stats::with_error(b, s@),
                Event::Failed(s) => stats::with_error(b, s@),
                _ => b,
            }
        }),
{
}

/// Every response that is completed leaves its latency, where latencies are
/// recorded, it is below the limit and one more can be counted: its slot comes once
/// more. No other step changes the latencies.
pub proof fn law_every_latency_is_recorded(
    w: WorkerView,
    e: Event,
    elapsed: u128,
    opts: Options,
    v: u64,
)
    requires
        fits(w, e),
    ensures
        ({
            let after = next(w, e, elapsed, opts).0.stats;
            let before = w.stats;
            &&& after.latency is Some <==> before.latency is Some
            &&& before.latency is Some && completes(w, e) is Some && completes(w, e)->0 < 16_777_216
                && before.latency->0.len() < u64::MAX ==> {
                &&& after.latency->0.len() == before.latency->0.len() + 1
                &&& after.latency->0.count(v) == before.latency->0.count(v) + (if v == stats::slot(
                    completes(w, e)->0 as nat,
                ) {
                    1nat
                } else {
                    0
                })
            }
            &&& completes(w, e) is None || completes(w, e)->0 >= 16_777_216 ==> after.latency
                == before.latency
        }),
{
    let (after, before) = (next(w, e, elapsed, opts).0.stats, w.stats);
    match completes(w, e) {
        Some(m) => {
            stats::law_latency_is_recorded(before, m, v);
            stats::law_slot_is_close(m as nat);
        },
        None => {},
    }
}

/// Every response is counted: one with the status code 200 as a success, and so is
/// one with 202 where calls of tools are accepted with it. Every other one is counted
/// under its status code. No other step counts a response.
pub proof fn law_every_response_is_counted(
    w: WorkerView,
    e: Event,
    elapsed: u128,
    opts: Options,
    code: u16,
)
    requires
        fits(w, e),
    ensures
        ({
            let after = next(w, e, elapsed, opts).0.stats;
            let before = w.stats;
            let came = brings_status(w, e);
            let success = came == Some(200u16) || (w.profile.accepts && came == Some(202u16));
            &&& success && before.ok < u64::MAX ==> after.ok == before.ok + 1
            &&& !success ==> after.ok == before.ok
            &&& success || came is None ==> after.status == before.status
            &&& !success && came == Some(code) ==> {
                &&& after.status.dom().contains(code)
                &&& !before.status.dom().contains(code) ==> after.status[code] == 1
                &&& before.status.dom().contains(code) && before.status[code] < u64::MAX
                    ==> after.status[code] == before.status[code] + 1
            }
            &&& came != Some(code) ==> (after.status.dom().contains(code)
                <==> before.status.dom().contains(code)) && (before.status.dom().contains(code)
                ==> after.status[code] == before.status[code])
        }),
{
    lemma_step_statistics(w, e, elapsed, opts);
    let before = w.stats;
    match brings_status(w, e) {
        Some(status) => {
            let a = with_response(w, status);
            assert(next(w, e, elapsed, opts).0.stats.ok == a.ok);
            assert(next(w, e, elapsed, opts).0.stats.status == a.status);
            if status == 200 || (w.profile.accepts && status == 202) {
                assert(a.status == before.status);
            } else {
                assert(a.ok == before.ok);
            }
        },
        None => {},
    }
}

/// Every failure is counted under its text, and so is every time that a connection
/// is not ready. No other step counts an error.
pub proof fn law_every_error_is_counted(
    w: WorkerView,
    e: Event,
    elapsed: u128,
    opts: Options,
    t: Seq<char>,
)
    requires
        fits(w, e),
    ensures
        ({
            let after = next(w, e, elapsed, opts).0.stats;
            let before = w.stats;
            let came: Option<Seq<char>> = match e {
                Event::NotReady(s) => Some(s@),
                Event::Failed(s) => Some(s@),
                _ => None,
            };
            &&& came is None ==> after.err == before.err
            &&& came == Some(t) ==> {
                &&& after.err.dom().contains(t)
                &&& !before.err.dom().contains(t) ==> after.err[t] == 1
                &&& before.err.dom().contains(t) && before.err[t] < u64::MAX ==> after.err[t]
                    == before.err[t] + 1
            }
            &&& came != Some(t) ==> (after.err.dom().contains(t) <==> before.err.dom().contains(t))
                && (before.err.dom().contains(t) ==> after.err[t] == before.err[t])
        }),
{
}

/// Connections are counted as they are opened, by the clients that count them. A
/// step changes nothing else of what was counted.
pub proof fn law_connections_are_counted(w: WorkerView, e: Event, elapsed: u128, opts: Options)
    requires
        fits(w, e),
    ensures
        ({
            let after = next(w, e, elapsed, opts).0.stats;
            let before = w.stats;
            &&& e is Connected && w.profile.counts_conn && before.conn < u64::MAX ==> after.conn
                == before.conn + 1
            &&& !(e is Connected && w.profile.counts_conn) ==> after.conn == before.conn
            &&& after.idle == before.idle
        }),
{
}

/// A request counts when it is answered or when it fails, and a failure to connect
/// counts like one. Nothing else does.
pub proof fn law_requests_are_counted(w: WorkerView, e: Event, elapsed: u128, opts: Options)
    requires
        fits(w, e),
    ensures
        ({
            let v = next(w, e, elapsed, opts).0;
            let counts = completes(w, e) is Some || e is Failed || e is Eof;
            &&& counts && w.total < u32::MAX ==> v.total == w.total + 1
            &&& !counts ==> v.total == w.total
        }),
{
}

/// What follows an answer: the task stops where it has done enough. Otherwise the
/// connection is given up where it has served as many requests as `--rpc` says, or
/// one where `--cps` is set, and kept where it has not: the next request is sent, by the
/// clients that wait for their connection once it is ready. The client that shares its
/// connections keeps them.
pub proof fn law_connection_is_kept_or_given_up(
    w: WorkerView,
    e: Event,
    elapsed: u128,
    opts: Options,
)
    requires
        fits(w, e),
        completes(w, e) is Some,
        w.total < u32::MAX,
    ensures
        ({
            let (v, action) = next(w, e, elapsed, opts);
            let enough = (opts.requests matches Some(n) && w.total + 1 >= n) || (
            opts.duration matches Some(d) && elapsed > d);
            let served = w.profile.limited && (if opts.cps {
                w.sent >= 1
            } else {
                w.sent >= opts.rpc
            });
            &&& enough ==> action is Stop
            &&& !enough && served ==> action is Connect
            &&& !enough && !served && w.sent > 0 && (w.profile.waits_after || w.profile.waits_before)
                ==> action is Wait
            &&& !enough && !served && w.sent > 0 && !w.profile.waits_after && !w.profile.waits_before
                ==> action is Send
        }),
{
}

/// What follows a failure, or the end of a connection that was waited for: the task
/// stops where it has done enough, and otherwise opens another connection.
pub proof fn law_failures_are_tried_again(w: WorkerView, e: Event, elapsed: u128, opts: Options)
    requires
        fits(w, e),
        e is Started || e is Closed || e is Failed || e is Eof,
    ensures
        ({
            let (v, action) = next(w, e, elapsed, opts);
            let enough = (opts.requests matches Some(n) && v.total >= n) || (
            opts.duration matches Some(d) && elapsed > d);
            &&& enough ==> action is Stop
            &&& !enough ==> action == (Action::Connect {
                announce: w.announces,
                generation: w.generation,
            })
        }),
{
}

/// What follows while a request is on its way: its response is read. The body of a
/// response with the status code 200 is read behind its head, and bytes are received
/// until the response is complete.
pub proof fn law_responses_are_read(w: WorkerView, e: Event, elapsed: u128, opts: Options)
    requires
        fits(w, e),
    ensures
        ({
            let (v, action) = next(w, e, elapsed, opts);
            &&& e is Written ==> action is Receive
            &&& (e matches Event::Head(status, _) && status == 200) ==> action is ReadBody
            &&& e is Received && brings_status(w, e) is None ==> action is Receive && (
            e matches Event::Received(b, _) && v.buffer == w.buffer + b@)
            &&& action is Receive ==> e is Written || e is Received
            &&& action is ReadBody ==> e is Head
        }),
{
}

/// A connection that is open is used: the session is set up where that is still to be
/// done, and otherwise a request is sent, by some clients after they have waited. A
/// connection starts with no request and nothing received.
pub proof fn law_connection_is_used(w: WorkerView, e: Event, elapsed: u128, opts: Options)
    requires
        fits(w, e),
    ensures
        ({
            let (v, action) = next(w, e, elapsed, opts);
            let sets_up = w.initializes && w.bodies == 0;
            &&& e is Connected && sets_up ==> action is Initialize
            &&& e is Connected && !sets_up && w.profile.waits_before ==> action is Wait
            &&& e is Connected && !sets_up && !w.profile.waits_before ==> action is Send
            &&& e is Connected ==> v.buffer.len() == 0 && v.sent == (if action is Send {
                1int
            } else {
                0
            })
            &&& e is Ready || e is Initialized ==> action is Send && (w.sent < u32::MAX ==> v.sent
                == w.sent + 1)
            &&& e matches Event::Initialized(n) ==> v.bodies == n
            &&& e is NotReady && w.profile.stays ==> action is Send
            &&& e is NotReady && !w.profile.stays ==> action is Connect || action is Stop
        }),
{
}

/// Bytes that follow a response stay: what was received is the response and what is
/// left of it.
pub proof fn law_bytes_behind_a_response_stay(
    w: WorkerView,
    bytes: Vec<u8>,
    micros: u64,
    elapsed: u128,
    opts: Options,
    n: nat,
    status: u16,
)
    requires
        fits(w, Event::Received(bytes, micros)),
        (if w.profile.decodes {
            http1::first_decoded(w.buffer + bytes@)
        } else {
            http1::first_frame(w.buffer + bytes@)
        }) == Some((n, status)),
        n <= w.buffer.len() + bytes@.len(),
    ensures
        ({
            let v = next(w, Event::Received(bytes, micros), elapsed, opts).0;
            v.buffer == (w.buffer + bytes@).skip(n as int)
        }),
{
}

/// Each connection has a number of its own: they are counted from 0 on, in 64 bits.
pub proof fn law_connections_are_numbered(w: WorkerView, e: Event, elapsed: u128, opts: Options)
    requires
        fits(w, e),
    ensures
        ({
            let (v, action) = next(w, e, elapsed, opts);
            &&& action matches Action::Connect { generation, .. } ==> generation == w.generation && (
            w.generation < u64::MAX ==> v.generation == w.generation + 1)
            &&& !(action is Connect) ==> v.generation == w.generation
        }),
{
}

/// A task starts with nothing done. The first tasks announce the URIs, one each, and
/// the client for tools sets up its session unless answers come in a stream.
pub proof fn law_task_starts_fresh(client: ClientType, cid: usize, bodies: usize, opts: Options)
    ensures
        ({
            let w = fresh(client, cid, bodies, opts);
            &&& w.phase is Fresh && w.total == 0 && w.sent == 0 && w.generation == 0
            &&& w.bodies == bodies && w.next_body == 0 && w.buffer.len() == 0
            &&& w.announces <==> cid < opts.uri@.len()
            &&& w.initializes <==> client is HyperMcp && !opts.mcp_sse
            &&& w.stats.ok == 0 && w.stats.conn == 0 && w.stats.idle.len() == 0
            &&& w.stats.status == Map::<u16, u64>::empty() && w.stats.err
                == Map::<Seq<char>, u64>::empty()
            &&& w.stats.latency is Some <==> opts.latency
        }),
{
}

/// What the clients do: all but `hyper-rt1` limit the requests over a connection.
/// `tokio-uring`, `compio` and `monoio` read the bytes of responses, the last two
/// through `http_wire`. `hyper-h2` waits before each request and reads the head of a
/// response before its body. `hyper` and `hyper-chunked` wait after each response and
/// use a connection that is not ready all the same. `hyper-mcp` waits as well and
/// takes 202 for a success.
pub proof fn law_clients_differ(c: ClientType)
    ensures
        ({
            let p = profile_of(c);
            let raw = c is TokioUring || c is Compio || c is Monoio;
            let hyper = c is Auto || c is Hyper || c is HyperChunked;
            &&& p.limited <==> !(c is HyperRt1)
            &&& p.raw <==> raw
            &&& p.decodes <==> c is Compio || c is Monoio
            &&& p.waits_before <==> c is HyperH2
            &&& p.head_first <==> c is HyperH2
            &&& p.waits_after <==> hyper || c is HyperMcp
            &&& p.stays <==> hyper
            &&& p.accepts <==> c is HyperMcp
            &&& p.counts_conn <==> raw || c is HyperMcp
            &&& p.in_place <==> hyper || c is HyperH2 || c is HyperLegacy || c is Reqwest
        }),
{
}

/// The phase that each action leads to.
#[verifier::rlimit(60)]
proof fn lemma_phase_of_an_action(w: WorkerView, e: Event, elapsed: u128, opts: Options)
    requires
        fits(w, e),
    ensures
        ({
            let (v, action) = next(w, e, elapsed, opts);
            &&& v.profile == w.profile
            &&& action is Connect ==> v.phase is Connecting || v.phase is Redialing
            &&& action is Initialize ==> v.phase is Initializing
            &&& action is Wait ==> v.phase is Waiting
            &&& action is Send ==> v.phase is Sending
            &&& action is ReadBody ==> v.phase is Reading && v.profile.head_first
            &&& action is Receive ==> v.phase is Reading && v.profile.raw
        }),
{
}

/// Whatever can come of an action can happen in the phase that the action leads to, so a
/// task is never asked about an event that it does not know.
#[verifier::rlimit(60)]
pub proof fn law_what_comes_of_an_action_fits(
    w: WorkerView,
    e: Event,
    elapsed: u128,
    opts: Options,
    s: String,
    n: usize,
    status: u16,
    m: u64,
    b: Vec<u8>,
)
    requires
        fits(w, e),
    ensures
        ({
            let (v, action) = next(w, e, elapsed, opts);
            &&& action is Connect ==> fits(v, Event::Connected) && fits(v, Event::Failed(s))
            &&& action is Initialize ==> fits(v, Event::Initialized(n))
            &&& action is Wait ==> fits(v, Event::Ready) && fits(v, Event::NotReady(s)) && fits(
                v,
                Event::Closed,
            )
            &&& action is Send ==> fits(v, Event::Failed(s))
            &&& action is Send && v.profile.raw ==> fits(v, Event::Written)
            &&& action is Send && v.profile.head_first ==> fits(v, Event::Head(status, m))
            &&& action is Send && !v.profile.raw && !v.profile.head_first ==> fits(
                v,
                Event::Responded(status, m),
            )
            &&& action is ReadBody ==> fits(v, Event::BodyRead(m)) && fits(v, Event::Failed(s))
            &&& action is Receive ==> fits(v, Event::Received(b, m)) && fits(v, Event::Eof) && fits(
                v,
                Event::Failed(s),
            )
        }),
        w.phase is Fresh ==> fits(w, Event::Started),
{
    let (v, action) = next(w, e, elapsed, opts);
    lemma_phase_of_an_action(w, e, elapsed, opts);
    lemma_events_of_a_phase(v, s, n, status, m, b);
}

/// The events of each phase.
proof fn lemma_events_of_a_phase(
    v: WorkerView,
    s: String,
    n: usize,
    status: u16,
    m: u64,
    b: Vec<u8>,
)
    ensures
        v.phase is Connecting || v.phase is Redialing ==> fits(v, Event::Connected) && fits(
            v,
            Event::Failed(s),
        ),
        v.phase is Initializing ==> fits(v, Event::Initialized(n)),
        v.phase is Waiting ==> fits(v, Event::Ready) && fits(v, Event::NotReady(s)) && fits(
            v,
            Event::Closed,
        ),
        v.phase is Sending ==> fits(v, Event::Failed(s)),
        v.phase is Sending && v.profile.raw ==> fits(v, Event::Written),
        v.phase is Sending && v.profile.head_first ==> fits(v, Event::Head(status, m)),
        v.phase is Sending && !v.profile.raw && !v.profile.head_first ==> fits(
            v,
            Event::Responded(status, m),
        ),
        v.phase is Reading ==> fits(v, Event::Failed(s)),
        v.phase is Reading && v.profile.head_first ==> fits(v, Event::BodyRead(m)),
        v.phase is Reading && v.profile.raw ==> fits(v, Event::Received(b, m)) && fits(v, Event::Eof),
{
}

/// A response goes to the shared counter of successes where it is one, and otherwise to
/// that of failures.
pub proof fn law_shared_counter_of_a_response(w: WorkerView, status: u16, rt: RealtimeStats)
    requires
        shows_response(w, status, rt),
    ensures
        status == 200 || (w.profile.accepts && status == 202) ==> stats::counted_up(rt.ok),
        !(status == 200 || (w.profile.accepts && status == 202)) ==> stats::counted_up(rt.fail),
{
}

} // verus!
