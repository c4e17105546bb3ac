//! The video streaming state machine: one frame in, one request out, one
//! response awaited, and a final empty frame to close the stream.
//!
//! The machine does no I/O. Its caller feeds it events (a frame was decoded,
//! a response arrived, the transport failed) and carries out the action that
//! each step returns.
use vstd::prelude::*;

use crate::schema::{
    decode_response, encode_request, parse_response, request_bytes, request_fits, ClientRequest,
    RequestView, ResponseView, SchemaError, ServerResponse, MAX_MESSAGE_LEN, TAG_STATUS,
};

verus! {

/// Why a streaming session failed.
#[derive(Debug, Clone, Copy, PartialEq, Eq, Structural)]
pub enum DriverError {
    /// A send or a receive on the connection failed.
    Transport,
    /// The video could not be opened or decoded.
    Media,
    /// A request could not be encoded or a response could not be decoded.
    Schema(SchemaError),
    /// An event came that the current phase does not expect.
    OutOfTurn,
}

/// Where a streaming session stands.
#[derive(Debug, Clone, Copy, PartialEq, Eq, Structural)]
pub enum Phase {
    /// Waiting for the video to be opened.
    Opening,
    /// Ready for the next decoded frame.
    Streaming,
    /// A frame was sent; waiting for its response.
    AwaitingAck,
    /// The end-of-stream frame was sent; waiting for its response.
    Draining,
    /// The session completed.
    Done,
    /// The session failed; nothing more is sent.
    Failed(DriverError),
}

/// What happened since the last step.
pub enum DriverEvent {
    /// The video was opened and has these dimensions.
    Opened { width: u32, height: u32 },
    /// The pipeline decoded a frame.
    Frame { pixels: Vec<u8>, width: u32, height: u32 },
    /// The pipeline has no more frames.
    Exhausted,
    /// A response frame arrived; this is its payload.
    Response { payload: Vec<u8> },
    /// Sending or receiving failed.
    TransportFailed,
    /// Opening or decoding the video failed.
    MediaFailed,
}

/// What the caller does next.
pub enum DriverAction {
    /// Fetch the next frame from the pipeline. `remote_rejected` tells that the
    /// remote host did not report success for the frame just acknowledged.
    NextFrame { remote_rejected: bool },
    /// Send this request payload, then wait for exactly one response.
    Send { payload: Vec<u8> },
    /// The session is complete.
    Finish,
    /// The session failed with this error.
    Abort { error: DriverError },
}

/// An event as plain values.
pub enum EventView {
    Opened { width: u32, height: u32 },
    Frame { pixels: Seq<u8>, width: u32, height: u32 },
    Exhausted,
    Response { payload: Seq<u8> },
    TransportFailed,
    MediaFailed,
}

/// An action as plain values.
pub enum ActionView {
    NextFrame { remote_rejected: bool },
    Send { payload: Seq<u8> },
    Finish,
    Abort { error: DriverError },
}

impl View for DriverEvent {
    type V = EventView;

    open spec fn view(&self) -> EventView {
        match self {
            DriverEvent::Opened { width, height } => EventView::Opened { width: *width, height: *height },
            DriverEvent::Frame { pixels, width, height } => EventView::Frame {
                pixels: pixels@,
                width: *width,
                height: *height,
            },
            DriverEvent::Exhausted => EventView::Exhausted,
            DriverEvent::Response { payload } => EventView::Response { payload: payload@ },
            DriverEvent::TransportFailed => EventView::TransportFailed,
            DriverEvent::MediaFailed => EventView::MediaFailed,
        }
    }
}

impl View for DriverAction {
    type V = ActionView;

    open spec fn view(&self) -> ActionView {
        match self {
            DriverAction::NextFrame { remote_rejected } => ActionView::NextFrame {
                remote_rejected: *remote_rejected,
            },
            DriverAction::Send { payload } => ActionView::Send { payload: payload@ },
            DriverAction::Finish => ActionView::Finish,
            DriverAction::Abort { error } => ActionView::Abort { error: *error },
        }
    }
}

/// The state of a streaming session, with the number of requests sent and of
/// responses received so far.
pub struct DriverView {
    pub target_window: u64,
    pub width: u32,
    pub height: u32,
    pub phase: Phase,
    pub sent: nat,
    pub acked: nat,
}

/// The streaming session towards one target window.
pub struct StreamDriver {
    pub target_window: u64,
    pub width: u32,
    pub height: u32,
    pub phase: Phase,
    pub sent: Ghost<nat>,
    pub acked: Ghost<nat>,
}

impl View for StreamDriver {
    type V = DriverView;

    open spec fn view(&self) -> DriverView {
        DriverView {
            target_window: self.target_window,
            width: self.width,
            height: self.height,
            phase: self.phase,
            sent: self.sent@,
            acked: self.acked@,
        }
    }
}

/// The video frame request that carries `pixels` in the session's current
/// dimensions.
pub open spec fn frame_request(d: DriverView, pixels: Seq<u8>, is_last: bool) -> RequestView {
    RequestView::RenderVideoFrame {
        target_window: d.target_window,
        pixels,
        width: d.width,
        height: d.height,
        is_last,
    }
}

/// The error that decoding `payload` as a response gives.
pub open spec fn response_error(payload: Seq<u8>) -> SchemaError {
    if payload.len() > 0 && payload[0] > TAG_STATUS {
        SchemaError::UnknownTag(payload[0])
    } else {
        SchemaError::Malformed
    }
}

/// The response reports that the remote host did what was asked.
pub open spec fn is_success(r: ResponseView) -> bool {
    r matches ResponseView::Status { success: true, .. }
}

/// A session fails: nothing more is sent.
pub open spec fn fail(d: DriverView, error: DriverError) -> (DriverView, ActionView) {
    (DriverView { phase: Phase::Failed(error), ..d }, ActionView::Abort { error })
}

/// A session that has not ended.
pub open spec fn is_live(p: Phase) -> bool {
    !(p is Done) && !(p is Failed)
}

/// One step of the session: the state after `e` and what to do next.
pub open spec fn step_spec(d: DriverView, e: EventView) -> (DriverView, ActionView) {
    match d.phase {
        Phase::Done => (d, ActionView::Finish),
        Phase::Failed(error) => (d, ActionView::Abort { error }),
        _ => match e {
            EventView::TransportFailed => fail(d, DriverError::Transport),
            EventView::MediaFailed => fail(d, DriverError::Media),
            EventView::Opened { width, height } => if d.phase is Opening {
                (
                    DriverView { width, height, phase: Phase::Streaming, ..d },
                    ActionView::NextFrame { remote_rejected: false },
                )
            } else {
                fail(d, DriverError::OutOfTurn)
            },
            EventView::Frame { pixels, width, height } => if d.phase is Streaming {
                let d2 = DriverView { width, height, ..d };
                let req = frame_request(d2, pixels, false);
                if request_fits(req) {
                    (
                        DriverView { phase: Phase::AwaitingAck, sent: d.sent + 1, ..d2 },
                        ActionView::Send { payload: request_bytes(req) },
                    )
                } else {
                    fail(d, DriverError::Schema(SchemaError::TooLarge))
                }
            } else {
                fail(d, DriverError::OutOfTurn)
            },
            EventView::Exhausted => if d.phase is Streaming {
                (
                    DriverView { phase: Phase::Draining, sent: d.sent + 1, ..d },
                    ActionView::Send { payload: request_bytes(frame_request(d, Seq::empty(), true)) },
                )
            } else {
                fail(d, DriverError::OutOfTurn)
            },
            EventView::Response { payload } => if d.phase is AwaitingAck {
                match parse_response(payload) {
                    Some(r) => (
                        DriverView { phase: Phase::Streaming, acked: d.acked + 1, ..d },
                        ActionView::NextFrame { remote_rejected: !is_success(r) },
                    ),
                    None => fail(d, DriverError::Schema(response_error(payload))),
                }
            } else if d.phase is Draining {
                (DriverView { phase: Phase::Done, acked: d.acked + 1, ..d }, ActionView::Finish)
            } else {
                fail(d, DriverError::OutOfTurn)
            },
        },
    }
}

impl StreamDriver {
    /// A session towards `target_window`, waiting for the video to open.
    pub fn new(target_window: u64) -> (r: StreamDriver)
        ensures
            r@ == initial(target_window),
    {
        StreamDriver {
            target_window,
            width: 0,
            height: 0,
            phase: Phase::Opening,
            sent: Ghost(0),
            acked: Ghost(0),
        }
    }

    fn fail_with(&mut self, error: DriverError) -> (a: DriverAction)
        ensures
            (final(self)@, a@) == fail(old(self)@, error),
    {
        self.phase = Phase::Failed(error);
        DriverAction::Abort { error }
    }

    /// Takes one event and returns what to do next.
    pub fn step(&mut self, event: DriverEvent) -> (a: DriverAction)
        ensures
            (final(self)@, a@) == step_spec(old(self)@, event@),
    {
        match self.phase {
            Phase::Done => return DriverAction::Finish,
            Phase::Failed(error) => return DriverAction::Abort { error },
            _ => {},
        }
        match event {
            DriverEvent::TransportFailed => self.fail_with(DriverError::Transport),
            DriverEvent::MediaFailed => self.fail_with(DriverError::Media),
            DriverEvent::Opened { width, height } => {
                if self.phase == Phase::Opening {
                    self.width = width;
                    self.height = height;
                    self.phase = Phase::Streaming;
                    DriverAction::NextFrame { remote_rejected: false }
                } else {
                    self.fail_with(DriverError::OutOfTurn)
                }
            },
            DriverEvent::Frame { pixels, width, height } => {
                if self.phase == Phase::Streaming {
                    let req = ClientRequest::RenderVideoFrame {
                        target_window: self.target_window,
                        pixels,
                        width,
                        height,
                        is_last: false,
                    };
                    match encode_request(&req) {
                        Ok(payload) => {
                            self.width = width;
                            self.height = height;
                            self.phase = Phase::AwaitingAck;
                            self.sent = Ghost(self.sent@ + 1);
                            DriverAction::Send { payload }
                        },
                        Err(e) => self.fail_with(DriverError::Schema(e)),
                    }
                } else {
                    self.fail_with(DriverError::OutOfTurn)
                }
            },
            DriverEvent::Exhausted => {
                if self.phase == Phase::Streaming {
                    let req = ClientRequest::RenderVideoFrame {
                        target_window: self.target_window,
                        pixels: Vec::new(),
                        width: self.width,
                        height: self.height,
                        is_last: true,
                    };
                    match encode_request(&req) {
                        Ok(payload) => {
                            self.phase = Phase::Draining;
                            self.sent = Ghost(self.sent@ + 1);
                            DriverAction::Send { payload }
                        },
                        Err(e) => self.fail_with(DriverError::Schema(e)),
                    }
                } else {
                    self.fail_with(DriverError::OutOfTurn)
                }
            },
            DriverEvent::Response { payload } => {
                if self.phase == Phase::AwaitingAck {
                    match decode_response(payload.as_slice()) {
                        Ok(r) => {
                            let success = match r {
                                ServerResponse::Status { success, .. } => success,
                                ServerResponse::WindowList { .. } => false,
                            };
                            self.phase = Phase::Streaming;
                            self.acked = Ghost(self.acked@ + 1);
                            DriverAction::NextFrame { remote_rejected: !success }
                        },
                        Err(e) => self.fail_with(DriverError::Schema(e)),
                    }
                } else if self.phase == Phase::Draining {
                    self.phase = Phase::Done;
                    self.acked = Ghost(self.acked@ + 1);
                    DriverAction::Finish
                } else {
                    self.fail_with(DriverError::OutOfTurn)
                }
            },
        }
    }
}

/// At most one request is waiting for its response: the counts of requests
/// sent and responses received match the phase.
pub open spec fn in_flight_ok(d: DriverView) -> bool {
    match d.phase {
        Phase::AwaitingAck | Phase::Draining => d.sent == d.acked + 1,
        Phase::Opening | Phase::Streaming | Phase::Done => d.sent == d.acked,
        Phase::Failed(_) => d.acked <= d.sent <= d.acked + 1,
    }
}

/// The state of a new session, as `StreamDriver::new` makes it.
pub open spec fn initial(target_window: u64) -> DriverView {
    DriverView { target_window, width: 0, height: 0, phase: Phase::Opening, sent: 0, acked: 0 }
}

/// Requests are never pipelined: a step sends a request only when every
/// earlier request has had its response, only a response counts as one, and
/// every step keeps at most one request in flight.
pub proof fn lemma_one_request_in_flight(d: DriverView, e: EventView)
    requires
        in_flight_ok(d),
    ensures
        in_flight_ok(step_spec(d, e).0),
        step_spec(d, e).1 is Send ==> d.sent == d.acked && step_spec(d, e).0.sent == d.sent + 1,
        step_spec(d, e).0.acked != d.acked ==> e is Response && step_spec(d, e).0.acked == d.acked + 1,
{
}

/// A new session has nothing in flight.
pub proof fn lemma_initial_in_flight_ok(target_window: u64)
    ensures
        in_flight_ok(initial(target_window)),
{
}

/// A failed session stays as it is and sends nothing more, whatever happens.
pub proof fn lemma_failed_halts(d: DriverView, e: EventView)
    requires
        d.phase is Failed,
    ensures
        step_spec(d, e).0 == d,
        !(step_spec(d, e).1 is Send),
{
}

/// A transport failure ends a live session in failure.
pub proof fn lemma_transport_failure_is_fatal(d: DriverView)
    requires
        is_live(d.phase),
    ensures
        step_spec(d, EventView::TransportFailed) == fail(d, DriverError::Transport),
{
}

/// The states and actions that a session goes through on `events`.
pub open spec fn run(d: DriverView, events: Seq<EventView>) -> (DriverView, Seq<ActionView>)
    decreases events.len(),
{
    if events.len() == 0 {
        (d, Seq::empty())
    } else {
        let (d1, a) = step_spec(d, events[0]);
        let (dn, rest) = run(d1, events.drop_first());
        (dn, seq![a] + rest)
    }
}

/// The payloads of the requests that `actions` send, in order.
pub open spec fn sent_payloads(actions: Seq<ActionView>) -> Seq<Seq<u8>>
    decreases actions.len(),
{
    if actions.len() == 0 {
        Seq::empty()
    } else {
        let rest = sent_payloads(actions.drop_first());
        match actions[0] {
            ActionView::Send { payload } => seq![payload] + rest,
            _ => rest,
        }
    }
}

/// Each frame of `frames` decoded at `width` by `height`, followed by the
/// matching reply of `replies`.
pub open spec fn frame_events(frames: Seq<Seq<u8>>, replies: Seq<Seq<u8>>, width: u32, height: u32) -> Seq<EventView>
    decreases frames.len(),
{
    if frames.len() == 0 || replies.len() == 0 {
        Seq::empty()
    } else {
        seq![
            EventView::Frame { pixels: frames[0], width, height },
            EventView::Response { payload: replies[0] },
        ] + frame_events(frames.drop_first(), replies.drop_first(), width, height)
    }
}

/// A whole session: the video opens, its frames come and are answered one by
/// one, the pipeline ends, and the end-of-stream frame is answered.
pub open spec fn session_events(
    width: u32,
    height: u32,
    frames: Seq<Seq<u8>>,
    replies: Seq<Seq<u8>>,
    last_reply: Seq<u8>,
) -> Seq<EventView> {
    seq![EventView::Opened { width, height }] + frame_events(frames, replies, width, height) + seq![
        EventView::Exhausted,
        EventView::Response { payload: last_reply },
    ]
}

/// The payload of the request that carries one data frame.
pub open spec fn data_frame_bytes(target_window: u64, width: u32, height: u32, pixels: Seq<u8>) -> Seq<u8> {
    request_bytes(RequestView::RenderVideoFrame { target_window, pixels, width, height, is_last: false })
}

/// The payload of the end-of-stream request.
pub open spec fn end_frame_bytes(target_window: u64, width: u32, height: u32) -> Seq<u8> {
    request_bytes(
        RequestView::RenderVideoFrame { target_window, pixels: Seq::empty(), width, height, is_last: true },
    )
}

proof fn lemma_run_concat(d: DriverView, a: Seq<EventView>, b: Seq<EventView>)
    ensures
        run(d, a + b) == (run(run(d, a).0, b).0, run(d, a).1 + run(run(d, a).0, b).1),
    decreases a.len(),
{
    if a.len() == 0 {
        assert(a + b =~= b);
        assert(Seq::<ActionView>::empty() + run(d, b).1 =~= run(d, b).1);
    } else {
        let (d1, x) = step_spec(d, a[0]);
        assert((a + b).drop_first() =~= a.drop_first() + b);
        assert((a + b)[0] == a[0]);
        lemma_run_concat(d1, a.drop_first(), b);
        let r1 = run(d1, a.drop_first());
        let r2 = run(r1.0, b);
        assert(seq![x] + (r1.1 + r2.1) =~= (seq![x] + r1.1) + r2.1);
    }
}

proof fn lemma_run_one(d: DriverView, e: EventView)
    ensures
        run(d, seq![e]) == (step_spec(d, e).0, seq![step_spec(d, e).1]),
{
    let s1 = step_spec(d, e);
    assert(seq![e].drop_first() =~= Seq::<EventView>::empty());
    assert(run(s1.0, Seq::<EventView>::empty()) == (s1.0, Seq::<ActionView>::empty()));
    assert(seq![s1.1] + Seq::<ActionView>::empty() =~= seq![s1.1]);
}

proof fn lemma_run_two(d: DriverView, e1: EventView, e2: EventView)
    ensures
        run(d, seq![e1, e2]) == (step_spec(step_spec(d, e1).0, e2).0, seq![
            step_spec(d, e1).1,
            step_spec(step_spec(d, e1).0, e2).1,
        ]),
{
    let s1 = step_spec(d, e1);
    assert(seq![e1] + seq![e2] =~= seq![e1, e2]);
    lemma_run_concat(d, seq![e1], seq![e2]);
    lemma_run_one(d, e1);
    lemma_run_one(s1.0, e2);
    assert(seq![s1.1] + seq![step_spec(s1.0, e2).1] =~= seq![s1.1, step_spec(s1.0, e2).1]);
}

proof fn lemma_sent_payloads_one(a: ActionView)
    ensures
        sent_payloads(seq![a]) == match a {
            ActionView::Send { payload } => seq![payload],
            _ => Seq::<Seq<u8>>::empty(),
        },
{
    let s = seq![a];
    assert(s.drop_first() =~= Seq::<ActionView>::empty());
    assert(sent_payloads(s.drop_first()) == Seq::<Seq<u8>>::empty());
    assert(s[0] == a);
    match a {
        ActionView::Send { payload } => {
            assert(seq![payload] + Seq::<Seq<u8>>::empty() =~= seq![payload]);
        },
        _ => {},
    }
}

proof fn lemma_sent_payloads_two(a1: ActionView, a2: ActionView)
    ensures
        sent_payloads(seq![a1, a2]) == sent_payloads(seq![a1]) + sent_payloads(seq![a2]),
        sent_payloads(seq![a1]) == match a1 {
            ActionView::Send { payload } => seq![payload],
            _ => Seq::<Seq<u8>>::empty(),
        },
        sent_payloads(seq![a2]) == match a2 {
            ActionView::Send { payload } => seq![payload],
            _ => Seq::<Seq<u8>>::empty(),
        },
{
    assert(seq![a1] + seq![a2] =~= seq![a1, a2]);
    lemma_sent_payloads_concat(seq![a1], seq![a2]);
    lemma_sent_payloads_one(a1);
    lemma_sent_payloads_one(a2);
}

proof fn lemma_sent_payloads_concat(x: Seq<ActionView>, y: Seq<ActionView>)
    ensures
        sent_payloads(x + y) == sent_payloads(x) + sent_payloads(y),
    decreases x.len(),
{
    if x.len() == 0 {
        assert(x + y =~= y);
        assert(Seq::<Seq<u8>>::empty() + sent_payloads(y) =~= sent_payloads(y));
    } else {
        assert((x + y).drop_first() =~= x.drop_first() + y);
        assert((x + y)[0] == x[0]);
        lemma_sent_payloads_concat(x.drop_first(), y);
        let rx = sent_payloads(x.drop_first());
        let ry = sent_payloads(y);
        match x[0] {
            ActionView::Send { payload } => {
                assert(seq![payload] + (rx + ry) =~= (seq![payload] + rx) + ry);
            },
            _ => {},
        }
    }
}

/// Streaming frames, each answered by a reply that decodes, sends one data
/// request per frame and returns to `Streaming` with all of them answered.
proof fn lemma_frames(d: DriverView, frames: Seq<Seq<u8>>, replies: Seq<Seq<u8>>)
    requires
        d.phase == Phase::Streaming,
        frames.len() == replies.len(),
        forall|i: int| 0 <= i < frames.len() ==> (#[trigger] frames[i]).len() + 22 <= MAX_MESSAGE_LEN,
        forall|i: int| 0 <= i < replies.len() ==> (#[trigger] parse_response(replies[i])) is Some,
    ensures
        run(d, frame_events(frames, replies, d.width, d.height)).0 == (DriverView {
            sent: d.sent + frames.len(),
            acked: d.acked + frames.len(),
            ..d
        }),
        sent_payloads(run(d, frame_events(frames, replies, d.width, d.height)).1) == frames.map_values(
            |p: Seq<u8>| data_frame_bytes(d.target_window, d.width, d.height, p),
        ),
    decreases frames.len(),
{
    let f = |p: Seq<u8>| data_frame_bytes(d.target_window, d.width, d.height, p);
    if frames.len() == 0 {
        assert(frames.map_values(f) =~= Seq::<Seq<u8>>::empty());
    } else {
        let head = seq![
            EventView::Frame { pixels: frames[0], width: d.width, height: d.height },
            EventView::Response { payload: replies[0] },
        ];
        let tail = frame_events(frames.drop_first(), replies.drop_first(), d.width, d.height);
        assert(frame_events(frames, replies, d.width, d.height) == head + tail);
        lemma_run_concat(d, head, tail);
        assert(request_fits(frame_request(d, frames[0], false)));
        assert(parse_response(replies[0]) is Some);
        let d1 = DriverView { phase: Phase::AwaitingAck, sent: d.sent + 1, ..d };
        let d2 = DriverView { phase: Phase::Streaming, sent: d.sent + 1, acked: d.acked + 1, ..d };
        assert(step_spec(d, head[0]).0 == d1);
        assert(step_spec(d1, head[1]).0 == d2);
        lemma_run_two(d, head[0], head[1]);
        assert(head == seq![head[0], head[1]]);
        let x = run(d, head).1;
        assert(run(d, head).0 == d2);
        lemma_sent_payloads_two(x[0], x[1]);
        assert(x == seq![x[0], x[1]]);
        assert(sent_payloads(x) =~= seq![data_frame_bytes(d.target_window, d.width, d.height, frames[0])]);
        assert forall|i: int| 0 <= i < frames.drop_first().len() implies (
        #[trigger] frames.drop_first()[i]).len() + 22 <= MAX_MESSAGE_LEN by {
            assert(frames.drop_first()[i] == frames[i + 1]);
        };
        assert forall|i: int| 0 <= i < replies.drop_first().len() implies (#[trigger] parse_response(
            replies.drop_first()[i],
        )) is Some by {
            assert(replies.drop_first()[i] == replies[i + 1]);
        };
        lemma_frames(d2, frames.drop_first(), replies.drop_first());
        lemma_sent_payloads_concat(x, run(d2, tail).1);
        assert(frames.map_values(f) =~= seq![f(frames[0])] + frames.drop_first().map_values(f));
    }
}

/// A session over `frames`, each answered by a reply that decodes (a
/// reported failure included), completes. It sends exactly one request per
/// frame, in order, then one empty end-of-stream request with the video's
/// dimensions: one request more than there are frames, each answered before
/// the next one.
pub proof fn lemma_session(
    target_window: u64,
    width: u32,
    height: u32,
    frames: Seq<Seq<u8>>,
    replies: Seq<Seq<u8>>,
    last_reply: Seq<u8>,
)
    requires
        frames.len() == replies.len(),
        forall|i: int| 0 <= i < frames.len() ==> (#[trigger] frames[i]).len() + 22 <= MAX_MESSAGE_LEN,
        forall|i: int| 0 <= i < replies.len() ==> (#[trigger] parse_response(replies[i])) is Some,
    ensures
        ({
            let (d, actions) = run(initial(target_window), session_events(width, height, frames, replies, last_reply));
            &&& d.phase == Phase::Done
            &&& d.sent == frames.len() + 1
            &&& d.acked == frames.len() + 1
            &&& sent_payloads(actions) == frames.map_values(
                |p: Seq<u8>| data_frame_bytes(target_window, width, height, p),
            ) + seq![end_frame_bytes(target_window, width, height)]
        }),
{
    let d0 = initial(target_window);
    let open = seq![EventView::Opened { width, height }];
    let mid = frame_events(frames, replies, width, height);
    let end = seq![EventView::Exhausted, EventView::Response { payload: last_reply }];
    let d1 = DriverView { width, height, phase: Phase::Streaming, ..d0 };
    assert(session_events(width, height, frames, replies, last_reply) == open + mid + end);
    lemma_run_concat(d0, open + mid, end);
    lemma_run_concat(d0, open, mid);
    lemma_run_one(d0, open[0]);
    assert(open == seq![open[0]]);
    assert(run(d0, open).0 == d1);
    let a_open = run(d0, open).1;
    assert(a_open =~= seq![ActionView::NextFrame { remote_rejected: false }]);
    lemma_sent_payloads_one(ActionView::NextFrame { remote_rejected: false });
    assert(sent_payloads(a_open) =~= Seq::<Seq<u8>>::empty());
    lemma_frames(d1, frames, replies);
    let d2 = DriverView { sent: frames.len() as nat, acked: frames.len() as nat, ..d1 };
    let a_mid = run(d1, mid).1;
    let d3 = DriverView { phase: Phase::Draining, sent: d2.sent + 1, ..d2 };
    let d4 = DriverView { phase: Phase::Done, acked: d2.acked + 1, ..d3 };
    lemma_run_two(d2, end[0], end[1]);
    assert(end == seq![end[0], end[1]]);
    assert(run(d2, end).0 == d4);
    let a_end = run(d2, end).1;
    lemma_sent_payloads_two(a_end[0], a_end[1]);
    assert(a_end == seq![a_end[0], a_end[1]]);
    assert(sent_payloads(a_end) =~= seq![end_frame_bytes(target_window, width, height)]);
    lemma_sent_payloads_concat(a_open, a_mid);
    lemma_sent_payloads_concat(a_open + a_mid, a_end);
    assert(Seq::<Seq<u8>>::empty() + sent_payloads(a_mid) =~= sent_payloads(a_mid));
}

} // verus!
