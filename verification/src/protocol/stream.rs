//! Stream management for HTTP/3 multiplexing.

use vstd::prelude::*;
use std::collections::HashMap;
use std::time::Instant;
use crate::config::StreamConfig;
use crate::error::{H3Error, H3Result, StreamError};
use crate::protocol::flow_control::{
    FlowController, FlowControlEvent, FlowControlStats, FlowModel, fresh_flow, stream_added,
    stream_removed, flow_stats, is_invalid_state, model_can_send, spec_reserve, receive_result,
    update_send_result, update_recv_result, model_send_window, model_recv_window,
    model_effective_send_window, reserve_goes_through,
};
use crate::protocol::frame::{FrameModel, H3Frame, model_stream_id};
use crate::protocol::maps::{
    collect_keys, lemma_push_contains, lemma_push_no_duplicates, lemma_take_next,
    lemma_not_in_prefix,
};
use crate::text::{decimal, window_data_text, window_overflow_text, text_with_number, push_str};
use crate::time::TimeSpan;

verus! {

broadcast use vstd::std_specs::hash::group_hash_axioms;

/// Stream priority levels for scheduling (most urgent first).
#[derive(Debug, Clone, Copy, PartialEq, Eq, Structural)]
pub enum StreamPriority {
    /// Highest priority
    Urgent,
    /// High priority
    High,
    /// Normal priority
    Normal,
    /// Low priority
    Low,
    /// Lowest priority
    Background,
}

impl Default for StreamPriority {
    fn default() -> (p: Self)
        ensures
            p == StreamPriority::Normal,
    {
        StreamPriority::Normal
    }
}

/// The rank of a priority: 0 for `Urgent` up to 4 for `Background`.
pub open spec fn priority_rank(p: StreamPriority) -> nat {
    match p {
        StreamPriority::Urgent => 0,
        StreamPriority::High => 1,
        StreamPriority::Normal => 2,
        StreamPriority::Low => 3,
        StreamPriority::Background => 4,
    }
}

fn rank_of(p: StreamPriority) -> (r: u8)
    ensures
        r == priority_rank(p),
{
    match p {
        StreamPriority::Urgent => 0,
        StreamPriority::High => 1,
        StreamPriority::Normal => 2,
        StreamPriority::Low => 3,
        StreamPriority::Background => 4,
    }
}

/// Stream state according to the HTTP/3 stream life cycle.
#[derive(Debug, Clone, Copy, PartialEq, Eq, Structural)]
pub enum StreamStateType {
    /// Stream is idle (not yet used)
    Idle,
    /// Stream is open for sending/receiving
    Open,
    /// Stream is half-closed (local side closed)
    HalfClosedLocal,
    /// Stream is half-closed (remote side closed)
    HalfClosedRemote,
    /// Stream is fully closed
    Closed,
    /// Stream is reserved for server push (local)
    ReservedLocal,
    /// Stream is reserved for server push (remote)
    ReservedRemote,
}

/// The name of a state as it appears in error messages.
pub open spec fn state_text(s: StreamStateType) -> Seq<char> {
    match s {
        StreamStateType::Idle => "Idle"@,
        StreamStateType::Open => "Open"@,
        StreamStateType::HalfClosedLocal => "HalfClosedLocal"@,
        StreamStateType::HalfClosedRemote => "HalfClosedRemote"@,
        StreamStateType::Closed => "Closed"@,
        StreamStateType::ReservedLocal => "ReservedLocal"@,
        StreamStateType::ReservedRemote => "ReservedRemote"@,
    }
}

fn state_name(s: StreamStateType) -> (t: String)
    ensures
        t@ == state_text(s),
{
    match s {
        StreamStateType::Idle => "Idle".to_owned(),
        StreamStateType::Open => "Open".to_owned(),
        StreamStateType::HalfClosedLocal => "HalfClosedLocal".to_owned(),
        StreamStateType::HalfClosedRemote => "HalfClosedRemote".to_owned(),
        StreamStateType::Closed => "Closed".to_owned(),
        StreamStateType::ReservedLocal => "ReservedLocal".to_owned(),
        StreamStateType::ReservedRemote => "ReservedRemote".to_owned(),
    }
}

/// The state after end-of-stream arrives from the peer, if that is allowed.
pub open spec fn after_end_received(s: StreamStateType) -> Option<StreamStateType> {
    match s {
        StreamStateType::Open => Some(StreamStateType::HalfClosedRemote),
        StreamStateType::HalfClosedLocal => Some(StreamStateType::Closed),
        _ => None,
    }
}

/// The state after this side sends end-of-stream, if that is allowed.
pub open spec fn after_end_sent(s: StreamStateType) -> Option<StreamStateType> {
    match s {
        StreamStateType::Open => Some(StreamStateType::HalfClosedLocal),
        StreamStateType::HalfClosedRemote => Some(StreamStateType::Closed),
        _ => None,
    }
}

/// Whether the stream life cycle allows going from `from` to `to`: the moves out of `Idle`,
/// the half-closings, the reserved states' moves, any move to `Closed`, and staying put.
pub open spec fn spec_can_transition(from: StreamStateType, to: StreamStateType) -> bool {
    ||| from == to
    ||| to == StreamStateType::Closed
    ||| from == StreamStateType::Idle && (to == StreamStateType::Open || to
        == StreamStateType::ReservedLocal || to == StreamStateType::ReservedRemote)
    ||| from == StreamStateType::Open && (to == StreamStateType::HalfClosedLocal || to
        == StreamStateType::HalfClosedRemote)
    ||| from == StreamStateType::ReservedLocal && to == StreamStateType::HalfClosedRemote
    ||| from == StreamStateType::ReservedRemote && to == StreamStateType::HalfClosedLocal
}

/// Whether a stream in state `s` may send.
pub open spec fn state_can_send(s: StreamStateType) -> bool {
    s == StreamStateType::Open || s == StreamStateType::HalfClosedRemote
}

/// Whether a stream in state `s` may receive.
pub open spec fn state_can_receive(s: StreamStateType) -> bool {
    s == StreamStateType::Open || s == StreamStateType::HalfClosedLocal
}

/// Stream type classification.
#[derive(Debug, Clone, Copy, PartialEq, Eq, Structural)]
pub enum StreamType {
    /// Client-initiated bidirectional stream
    ClientBidirectional,
    /// Server-initiated bidirectional stream
    ServerBidirectional,
    /// Client-initiated unidirectional stream
    ClientUnidirectional,
    /// Server-initiated unidirectional stream
    ServerUnidirectional,
}

/// The type of a stream, from the two low bits of its identifier.
pub open spec fn spec_stream_type(id: u64) -> StreamType {
    let low = id % 4;
    if low == 0 {
        StreamType::ClientBidirectional
    } else if low == 1 {
        StreamType::ServerBidirectional
    } else if low == 2 {
        StreamType::ClientUnidirectional
    } else {
        StreamType::ServerUnidirectional
    }
}

/// Whether a stream type is opened by the client.
pub open spec fn spec_client_initiated(t: StreamType) -> bool {
    t == StreamType::ClientBidirectional || t == StreamType::ClientUnidirectional
}

impl StreamType {
    /// Determine stream type from stream ID.
    pub fn from_id(stream_id: u64) -> (t: Self)
        ensures
            t == spec_stream_type(stream_id),
    {
        let low = stream_id & 0x03;
        assert(stream_id & 0x03 == stream_id % 4) by (bit_vector);
        if low == 0 {
            StreamType::ClientBidirectional
        } else if low == 1 {
            StreamType::ServerBidirectional
        } else if low == 2 {
            StreamType::ClientUnidirectional
        } else {
            StreamType::ServerUnidirectional
        }
    }

    /// Check if this stream type is bidirectional.
    pub fn is_bidirectional(self) -> (b: bool)
        ensures
            b == (self == StreamType::ClientBidirectional || self
                == StreamType::ServerBidirectional),
    {
        match self {
            StreamType::ClientBidirectional | StreamType::ServerBidirectional => true,
            _ => false,
        }
    }

    /// Check if this stream type is client-initiated.
    pub fn is_client_initiated(self) -> (b: bool)
        ensures
            b == spec_client_initiated(self),
    {
        match self {
            StreamType::ClientBidirectional | StreamType::ClientUnidirectional => true,
            _ => false,
        }
    }
}

/// Individual stream state and metadata.
#[derive(Debug)]
pub struct StreamState {
    /// Stream identifier
    pub id: u64,
    /// Current stream state
    pub state: StreamStateType,
    /// Send-side flow control window
    pub send_window: u32,
    /// Receive-side flow control window
    pub recv_window: u32,
    /// Initial flow control window size
    pub initial_window_size: u32,
    /// Whether headers have been received
    pub headers_received: bool,
    /// Whether headers have been sent
    pub headers_sent: bool,
    /// Whether end-of-stream has been received
    pub end_stream_received: bool,
    /// Whether end-of-stream has been sent
    pub end_stream_sent: bool,
    /// Stream priority
    pub priority: StreamPriority,
    /// Stream type
    pub stream_type: StreamType,
    /// Total bytes sent on this stream
    pub bytes_sent: u64,
    /// Total bytes received on this stream
    pub bytes_received: u64,
    /// Stream creation timestamp (for debugging/metrics)
    pub created_at: Instant,
    /// Last activity timestamp
    pub last_activity: Instant,
    /// Whether the stream has been reset
    pub reset: bool,
    /// Reset error code if stream was reset
    pub reset_error_code: Option<u64>,
}

/// The value of a stream state apart from its clock readings.
pub struct StreamView {
    pub id: u64,
    pub state: StreamStateType,
    pub send_window: u32,
    pub recv_window: u32,
    pub initial_window_size: u32,
    pub headers_received: bool,
    pub headers_sent: bool,
    pub end_stream_received: bool,
    pub end_stream_sent: bool,
    pub priority: StreamPriority,
    pub stream_type: StreamType,
    pub bytes_sent: u64,
    pub bytes_received: u64,
    pub reset: bool,
    pub reset_error_code: Option<u64>,
}

impl View for StreamState {
    type V = StreamView;

    open spec fn view(&self) -> StreamView {
        StreamView {
            id: self.id,
            state: self.state,
            send_window: self.send_window,
            recv_window: self.recv_window,
            initial_window_size: self.initial_window_size,
            headers_received: self.headers_received,
            headers_sent: self.headers_sent,
            end_stream_received: self.end_stream_received,
            end_stream_sent: self.end_stream_sent,
            priority: self.priority,
            stream_type: self.stream_type,
            bytes_sent: self.bytes_sent,
            bytes_received: self.bytes_received,
            reset: self.reset,
            reset_error_code: self.reset_error_code,
        }
    }
}

/// A new stream: idle, both windows at the configured initial size, nothing sent or received.
pub open spec fn fresh_stream(id: u64, config: StreamConfig) -> StreamView {
    StreamView {
        id,
        state: StreamStateType::Idle,
        send_window: config.initial_window_size,
        recv_window: config.initial_window_size,
        initial_window_size: config.initial_window_size,
        headers_received: false,
        headers_sent: false,
        end_stream_received: false,
        end_stream_sent: false,
        priority: config.priority,
        stream_type: spec_stream_type(id),
        bytes_sent: 0,
        bytes_received: 0,
        reset: false,
        reset_error_code: None,
    }
}

/// Events generated by stream processing.
#[derive(Debug, Clone)]
pub enum StreamEvent {
    /// Headers were received on a stream
    HeadersReceived { stream_id: u64 },
    /// Data was received on a stream
    DataReceived { stream_id: u64, data: Vec<u8> },
    /// End-of-stream was received
    EndStreamReceived { stream_id: u64 },
    /// Stream was reset
    StreamReset { stream_id: u64, error_code: u64 },
    /// Flow control window was updated
    WindowUpdated { stream_id: u64, increment: u32 },
}

/// The value of a stream event, its data as a sequence.
pub enum EventModel {
    HeadersReceived { stream_id: u64 },
    DataReceived { stream_id: u64, data: Seq<u8> },
    EndStreamReceived { stream_id: u64 },
    StreamReset { stream_id: u64, error_code: u64 },
    WindowUpdated { stream_id: u64, increment: u32 },
}

impl View for StreamEvent {
    type V = EventModel;

    open spec fn view(&self) -> EventModel {
        match self {
            StreamEvent::HeadersReceived { stream_id } => EventModel::HeadersReceived {
                stream_id: *stream_id,
            },
            StreamEvent::DataReceived { stream_id, data } => EventModel::DataReceived {
                stream_id: *stream_id,
                data: data@,
            },
            StreamEvent::EndStreamReceived { stream_id } => EventModel::EndStreamReceived {
                stream_id: *stream_id,
            },
            StreamEvent::StreamReset { stream_id, error_code } => EventModel::StreamReset {
                stream_id: *stream_id,
                error_code: *error_code,
            },
            StreamEvent::WindowUpdated { stream_id, increment } => EventModel::WindowUpdated {
                stream_id: *stream_id,
                increment: *increment,
            },
        }
    }
}

/// The values of a sequence of events.
pub open spec fn events_view(s: Seq<StreamEvent>) -> Seq<EventModel> {
    s.map_values(|e: StreamEvent| e@)
}

/// What processing a frame gives: the events, or the texts of an `InvalidState` error.
pub type FrameOutcome = Result<Seq<EventModel>, (Seq<char>, Seq<char>)>;

/// Whether `res` is the result that `r` describes.
pub open spec fn result_is(res: H3Result<Vec<StreamEvent>>, r: FrameOutcome) -> bool {
    match r {
        Ok(evs) => res matches Ok(v) && events_view(v@) == evs,
        Err((x, y)) => res matches Err(e) && is_invalid_state(e, x, y),
    }
}

/// Marking end-of-stream received on `v`, after the events `evs`.
pub open spec fn end_received_outcome(v: StreamView, evs: Seq<EventModel>) -> (
    StreamView,
    FrameOutcome,
) {
    let v1 = StreamView { end_stream_received: true, ..v };
    match after_end_received(v.state) {
        Some(t) => (
            StreamView { state: t, ..v1 },
            Ok(evs.push(EventModel::EndStreamReceived { stream_id: v.id })),
        ),
        None => (v1, Err(("Open or HalfClosedLocal"@, state_text(v.state)))),
    }
}

/// The effect of a frame on a stream: HEADERS marks headers received, DATA is charged to the
/// receive window (refused when it does not fit), end-of-stream moves the state on; other
/// frames change nothing.
pub open spec fn frame_outcome(v: StreamView, f: FrameModel) -> (StreamView, FrameOutcome) {
    match f {
        FrameModel::Headers { end_stream, .. } => {
            let evs = if !v.headers_received {
                seq![EventModel::HeadersReceived { stream_id: v.id }]
            } else {
                Seq::empty()
            };
            let v1 = StreamView { headers_received: true, ..v };
            if end_stream {
                end_received_outcome(v1, evs)
            } else {
                (v1, Ok(evs))
            }
        },
        FrameModel::Data { data, end_stream, .. } => {
            if data.len() > v.recv_window {
                (
                    v,
                    Err(
                        (
                            "sufficient flow control window"@,
                            "window: "@ + decimal(v.recv_window as nat) + ", data: "@ + decimal(
                                data.len(),
                            ),
                        ),
                    ),
                )
            } else {
                let v1 = StreamView { recv_window: (v.recv_window - data.len()) as u32, ..v };
                let evs = seq![EventModel::DataReceived { stream_id: v.id, data }];
                if end_stream {
                    end_received_outcome(v1, evs)
                } else {
                    (v1, Ok(evs))
                }
            }
        },
        _ => (v, Ok(Seq::empty())),
    }
}

/// The state after sending end-of-stream on `v`, and the texts of the error when the state
/// does not allow it (`end_stream_sent` is set either way).
pub open spec fn end_sent_outcome(v: StreamView) -> (StreamView, Option<(Seq<char>, Seq<char>)>) {
    let v1 = StreamView { end_stream_sent: true, ..v };
    match after_end_sent(v.state) {
        Some(t) => (StreamView { state: t, ..v1 }, None),
        None => (v1, Some(("Open or HalfClosedRemote"@, state_text(v.state)))),
    }
}

/// Whether `res` is `Ok` when `err` is `None`, else the `InvalidState` error it describes.
pub open spec fn unit_result_is(res: H3Result<()>, err: Option<(Seq<char>, Seq<char>)>) -> bool {
    match err {
        None => res is Ok,
        Some((x, y)) => res matches Err(e) && is_invalid_state(e, x, y),
    }
}

fn invalid(expected: &str, actual: String) -> (e: H3Error)
    ensures
        is_invalid_state(e, expected@, actual@),
{
    H3Error::Stream(StreamError::InvalidState { expected: expected.to_owned(), actual })
}

fn copy_bytes(data: &Vec<u8>) -> (out: Vec<u8>)
    ensures
        out@ == data@,
{
    let mut out: Vec<u8> = Vec::new();
    for i in 0..data.len()
        invariant
            out@ == data@.take(i as int),
    {
        out.push(data[i]);
        assert(out@ =~= data@.take(i + 1));
    }
    assert(out@ =~= data@);
    out
}

impl StreamState {
    /// Create a new stream state.
    pub fn new(id: u64, config: &StreamConfig) -> (s: Self)
        ensures
            s@ == fresh_stream(id, *config),
    {
        let now = crate::time::now();
        StreamState {
            id,
            state: StreamStateType::Idle,
            send_window: config.initial_window_size,
            recv_window: config.initial_window_size,
            initial_window_size: config.initial_window_size,
            headers_received: false,
            headers_sent: false,
            end_stream_received: false,
            end_stream_sent: false,
            priority: config.priority,
            stream_type: StreamType::from_id(id),
            bytes_sent: 0,
            bytes_received: 0,
            created_at: now,
            last_activity: now,
            reset: false,
            reset_error_code: None,
        }
    }

    /// Check if the stream can send data.
    pub fn can_send(&self) -> (b: bool)
        ensures
            b == state_can_send(self.state),
    {
        match self.state {
            StreamStateType::Open | StreamStateType::HalfClosedRemote => true,
            _ => false,
        }
    }

    /// Check if the stream can receive data.
    pub fn can_receive(&self) -> (b: bool)
        ensures
            b == state_can_receive(self.state),
    {
        match self.state {
            StreamStateType::Open | StreamStateType::HalfClosedLocal => true,
            _ => false,
        }
    }

    /// Check if the stream is closed.
    pub fn is_closed(&self) -> (b: bool)
        ensures
            b == (self.state == StreamStateType::Closed),
    {
        self.state == StreamStateType::Closed
    }

    /// Update stream state based on frame processing. An error may come after part of the
    /// frame was applied (headers marked received, end-of-stream recorded).
    pub fn process_frame(&mut self, frame: &H3Frame) -> (res: H3Result<Vec<StreamEvent>>)
        ensures
            final(self)@ == frame_outcome(old(self)@, frame@).0,
            result_is(res, frame_outcome(old(self)@, frame@).1),
            final(self).created_at == old(self).created_at,
            final(self).last_activity == old(self).last_activity,
    {
        let mut events: Vec<StreamEvent> = Vec::new();
        match frame {
            H3Frame::Headers { end_stream, .. } => {
                if !self.headers_received {
                    self.headers_received = true;
                    events.push(StreamEvent::HeadersReceived { stream_id: self.id });
                }
                if *end_stream {
                    self.end_stream_received = true;
                    events.push(StreamEvent::EndStreamReceived { stream_id: self.id });
                    let r = self.update_state_on_end_stream_received();
                    if let Err(e) = r {
                        return Err(e);
                    }
                }
            },
            H3Frame::Data { data, end_stream, .. } => {
                if data.len() > self.recv_window as usize {
                    let actual = window_data_text(self.recv_window as u64, data.len() as u64);
                    return Err(invalid("sufficient flow control window", actual));
                }
                self.recv_window = self.recv_window - data.len() as u32;
                events.push(StreamEvent::DataReceived { stream_id: self.id, data: copy_bytes(data) });
                if *end_stream {
                    self.end_stream_received = true;
                    events.push(StreamEvent::EndStreamReceived { stream_id: self.id });
                    let r = self.update_state_on_end_stream_received();
                    if let Err(e) = r {
                        return Err(e);
                    }
                }
            },
            _ => {},
        }
        assert(frame_outcome(old(self)@, frame@).1 matches Ok(evs) && events_view(events@) =~= evs);
        Ok(events)
    }

    /// Update state when end-of-stream is received.
    fn update_state_on_end_stream_received(&mut self) -> (res: H3Result<()>)
        ensures
            final(self)@ == (match after_end_received(old(self).state) {
                Some(t) => StreamView { state: t, ..old(self)@ },
                None => old(self)@,
            }),
            unit_result_is(
                res,
                match after_end_received(old(self).state) {
                    Some(t) => None,
                    None => Some(("Open or HalfClosedLocal"@, state_text(old(self).state))),
                },
            ),
            final(self).created_at == old(self).created_at,
            final(self).last_activity == old(self).last_activity,
    {
        match self.state {
            StreamStateType::Open => {
                self.state = StreamStateType::HalfClosedRemote;
            },
            StreamStateType::HalfClosedLocal => {
                self.state = StreamStateType::Closed;
            },
            _ => {
                return Err(invalid("Open or HalfClosedLocal", state_name(self.state)));
            },
        }
        Ok(())
    }
    /// Update state when end-of-stream is sent. `end_stream_sent` is set even when the state
    /// does not allow it.
    pub fn update_state_on_end_stream_sent(&mut self) -> (res: H3Result<()>)
        ensures
            final(self)@ == end_sent_outcome(old(self)@).0,
            unit_result_is(res, end_sent_outcome(old(self)@).1),
            final(self).created_at == old(self).created_at,
            final(self).last_activity == old(self).last_activity,
    {
        self.end_stream_sent = true;
        match self.state {
            StreamStateType::Open => {
                self.state = StreamStateType::HalfClosedLocal;
            },
            StreamStateType::HalfClosedRemote => {
                self.state = StreamStateType::Closed;
            },
            _ => {
                return Err(invalid("Open or HalfClosedRemote", state_name(self.state)));
            },
        }
        Ok(())
    }

    /// Reset the stream with an error code: it is closed and remembers the code.
    pub fn reset(&mut self, error_code: u64) -> (res: H3Result<()>)
        ensures
            res is Ok,
            final(self)@ == (StreamView {
                state: StreamStateType::Closed,
                reset: true,
                reset_error_code: Some(error_code),
                ..old(self)@
            }),
            final(self).created_at == old(self).created_at,
    {
        self.state = StreamStateType::Closed;
        self.reset = true;
        self.reset_error_code = Some(error_code);
        self.last_activity = crate::time::now();
        Ok(())
    }

    /// Open the stream (transition from Idle to Open).
    pub fn open(&mut self) -> (res: H3Result<()>)
        ensures
            old(self).state == StreamStateType::Idle ==> res is Ok && final(self)@ == (StreamView {
                state: StreamStateType::Open,
                ..old(self)@
            }),
            old(self).state != StreamStateType::Idle ==> final(self)@ == old(self)@ && (res matches Err(e) && is_invalid_state(e, "Idle"@, state_text(old(self).state))),
            final(self).created_at == old(self).created_at,
            old(self).state != StreamStateType::Idle ==> final(self).last_activity == old(self).last_activity,
    {
        match self.state {
            StreamStateType::Idle => {
                self.state = StreamStateType::Open;
                self.last_activity = crate::time::now();
                Ok(())
            },
            _ => Err(invalid("Idle", state_name(self.state))),
        }
    }

    /// Send headers on the stream, optionally ending it. Refused when the stream cannot send
    /// or has sent headers already.
    pub fn send_headers(&mut self, end_stream: bool) -> (res: H3Result<()>)
        ensures
            !state_can_send(old(self).state) ==> final(self)@ == old(self)@ && (res matches Err(e)
                && is_invalid_state(e, "stream that can send"@, state_text(old(self).state))),
            state_can_send(old(self).state) && old(self).headers_sent ==> final(self)@ == old(self)@ && (res matches Err(e) && is_invalid_state(
                e,
                "headers not yet sent"@,
                "headers already sent"@,
            )),
            state_can_send(old(self).state) && !old(self).headers_sent ==> res is Ok && final(self)@ == (if end_stream {
                end_sent_outcome(StreamView { headers_sent: true, ..old(self)@ }).0
            } else {
                StreamView { headers_sent: true, ..old(self)@ }
            }),
            final(self).created_at == old(self).created_at,
            !state_can_send(old(self).state) || old(self).headers_sent ==> final(self).last_activity == old(self).last_activity,
    {
        if !self.can_send() {
            return Err(invalid("stream that can send", state_name(self.state)));
        }
        if self.headers_sent {
            return Err(invalid("headers not yet sent", "headers already sent".to_owned()));
        }
        self.headers_sent = true;
        self.last_activity = crate::time::now();
        if end_stream {
            let r = self.update_state_on_end_stream_sent();
            if let Err(e) = r {
                return Err(e);
            }
        }
        Ok(())
    }

    /// Send data on the stream, charging the send window, optionally ending the stream.
    /// Refused when the stream cannot send or the window is too small.
    pub fn send_data(&mut self, data_len: usize, end_stream: bool) -> (res: H3Result<()>)
        requires
            state_can_send(old(self).state) && data_len <= old(self).send_window ==> old(self).bytes_sent + data_len <= u64::MAX,
        ensures
            !state_can_send(old(self).state) ==> final(self)@ == old(self)@ && (res matches Err(e)
                && is_invalid_state(e, "stream that can send"@, state_text(old(self).state))),
            state_can_send(old(self).state) && data_len > old(self).send_window ==> final(self)@
                == old(self)@ && (res matches Err(e) && is_invalid_state(
                e,
                "sufficient flow control window"@,
                "window: "@ + decimal(old(self).send_window as nat) + ", data: "@ + decimal(
                    data_len as nat,
                ),
            )),
            state_can_send(old(self).state) && data_len <= old(self).send_window ==> res is Ok
                && final(self)@ == ({
                let v = StreamView {
                    send_window: (old(self).send_window - data_len) as u32,
                    bytes_sent: (old(self).bytes_sent + data_len) as u64,
                    ..old(self)@
                };
                if end_stream {
                    end_sent_outcome(v).0
                } else {
                    v
                }
            }),
            final(self).created_at == old(self).created_at,
            !state_can_send(old(self).state) || data_len > old(self).send_window ==> final(self).last_activity == old(self).last_activity,
    {
        if !self.can_send() {
            return Err(invalid("stream that can send", state_name(self.state)));
        }
        if data_len > self.send_window as usize {
            let actual = window_data_text(self.send_window as u64, data_len as u64);
            return Err(invalid("sufficient flow control window", actual));
        }
        self.send_window = self.send_window - data_len as u32;
        self.bytes_sent = self.bytes_sent + data_len as u64;
        self.last_activity = crate::time::now();
        if end_stream {
            let r = self.update_state_on_end_stream_sent();
            if let Err(e) = r {
                return Err(e);
            }
        }
        Ok(())
    }

    /// Grow the send window by `increment`; refused when it would pass `u32::MAX`.
    pub fn update_send_window(&mut self, increment: u32) -> (res: H3Result<()>)
        ensures
            old(self).send_window + increment <= u32::MAX ==> res is Ok && final(self)@ == (
            StreamView { send_window: (old(self).send_window + increment) as u32, ..old(self)@ }),
            old(self).send_window + increment > u32::MAX ==> final(self)@ == old(self)@ && (res matches Err(e) && is_invalid_state(
                e,
                "valid window size"@,
                "window overflow: "@ + decimal(old(self).send_window as nat) + " + "@ + decimal(
                    increment as nat,
                ),
            )),
            final(self).created_at == old(self).created_at,
            old(self).send_window + increment > u32::MAX ==> final(self).last_activity == old(self).last_activity,
    {
        let new_window = self.send_window as u64 + increment as u64;
        if new_window > u32::MAX as u64 {
            let actual = window_overflow_text(self.send_window as u64, increment as u64);
            return Err(invalid("valid window size", actual));
        }
        self.send_window = new_window as u32;
        self.last_activity = crate::time::now();
        Ok(())
    }

    /// Grow the receive window by `increment`; refused when it would pass `u32::MAX`.
    pub fn update_recv_window(&mut self, increment: u32) -> (res: H3Result<()>)
        ensures
            old(self).recv_window + increment <= u32::MAX ==> res is Ok && final(self)@ == (
            StreamView { recv_window: (old(self).recv_window + increment) as u32, ..old(self)@ }),
            old(self).recv_window + increment > u32::MAX ==> final(self)@ == old(self)@ && (res matches Err(e) && is_invalid_state(
                e,
                "valid window size"@,
                "window overflow: "@ + decimal(old(self).recv_window as nat) + " + "@ + decimal(
                    increment as nat,
                ),
            )),
            final(self).created_at == old(self).created_at,
            old(self).recv_window + increment > u32::MAX ==> final(self).last_activity == old(self).last_activity,
    {
        let new_window = self.recv_window as u64 + increment as u64;
        if new_window > u32::MAX as u64 {
            let actual = window_overflow_text(self.recv_window as u64, increment as u64);
            return Err(invalid("valid window size", actual));
        }
        self.recv_window = new_window as u32;
        self.last_activity = crate::time::now();
        Ok(())
    }

    /// Whether the stream has been idle longer than `timeout`, by the clock now
    /// (`idle_exceeds` applied to the clock's reading). The answer depends on the clock; a
    /// timeout at least as long as any span the clock gives is never exceeded.
    pub fn is_idle_timeout(&self, timeout: TimeSpan) -> (b: bool)
        ensures
            timeout.nanos >= crate::time::MAX_SPAN_NANOS ==> !b,
    {
        let idle = crate::time::elapsed_since(&self.last_activity);
        idle_exceeds(idle, timeout)
    }

    /// The time since the stream was created, by the clock now.
    pub fn age(&self) -> (t: TimeSpan)
        ensures
            t.nanos <= crate::time::MAX_SPAN_NANOS,
    {
        crate::time::elapsed_since(&self.created_at)
    }

    /// Check if the stream needs a flow control window update: the receive window is below
    /// half of the initial window.
    pub fn needs_window_update(&self) -> (b: bool)
        ensures
            b == (self.recv_window < self.initial_window_size / 2),
    {
        self.recv_window < self.initial_window_size / 2
    }

    /// The window update increment that restores the initial receive window.
    pub fn calculate_window_update(&self) -> (n: u32)
        requires
            self.recv_window <= self.initial_window_size,
        ensures
            n == self.initial_window_size - self.recv_window,
    {
        self.initial_window_size - self.recv_window
    }

    /// Validate a state transition.
    pub fn can_transition_to(&self, new_state: StreamStateType) -> (b: bool)
        ensures
            b == spec_can_transition(self.state, new_state),
    {
        if new_state == StreamStateType::Closed || new_state == self.state {
            return true;
        }
        match self.state {
            StreamStateType::Idle => new_state == StreamStateType::Open || new_state
                == StreamStateType::ReservedLocal || new_state == StreamStateType::ReservedRemote,
            StreamStateType::Open => new_state == StreamStateType::HalfClosedLocal || new_state
                == StreamStateType::HalfClosedRemote,
            StreamStateType::ReservedLocal => new_state == StreamStateType::HalfClosedRemote,
            StreamStateType::ReservedRemote => new_state == StreamStateType::HalfClosedLocal,
            _ => false,
        }
    }
}

/// Every state change that a stream makes on its own (opening, end-of-stream in either
/// direction, reset) is a transition that `can_transition_to` accepts.
pub proof fn lemma_stream_moves_are_valid_transitions(s: StreamStateType)
    ensures
        s == StreamStateType::Idle ==> spec_can_transition(s, StreamStateType::Open),
        after_end_received(s) matches Some(t) ==> spec_can_transition(s, t),
        after_end_sent(s) matches Some(t) ==> spec_can_transition(s, t),
        spec_can_transition(s, StreamStateType::Closed),
{
}

/// How far a state lies along the stream life cycle: idle first, then open or reserved,
/// then half-closed, then closed.
pub open spec fn life_cycle_stage(s: StreamStateType) -> int {
    match s {
        StreamStateType::Idle => 0,
        StreamStateType::Open => 1,
        StreamStateType::ReservedLocal => 1,
        StreamStateType::ReservedRemote => 1,
        StreamStateType::HalfClosedLocal => 2,
        StreamStateType::HalfClosedRemote => 2,
        StreamStateType::Closed => 3,
    }
}

/// `Closed` is terminal: from a closed stream the only accepted transition is to `Closed`
/// itself; it can be neither reopened nor reserved nor half-closed again.
pub proof fn lemma_closed_is_terminal(to: StreamStateType)
    ensures
        spec_can_transition(StreamStateType::Closed, to) <==> to == StreamStateType::Closed,
{
}

/// No accepted transition leads back to `Idle` from any other state.
pub proof fn lemma_idle_is_never_reentered(from: StreamStateType)
    ensures
        spec_can_transition(from, StreamStateType::Idle) <==> from == StreamStateType::Idle,
{
}

/// A half-closed stream may only stay as it is or close.
pub proof fn lemma_half_closed_only_closes(from: StreamStateType, to: StreamStateType)
    requires
        from == StreamStateType::HalfClosedLocal || from == StreamStateType::HalfClosedRemote,
    ensures
        spec_can_transition(from, to) <==> (to == from || to == StreamStateType::Closed),
{
}

/// Every accepted transition other than staying put moves strictly forward in the life
/// cycle; none goes back to an earlier stage.
pub proof fn lemma_transitions_move_forward(from: StreamStateType, to: StreamStateType)
    requires
        spec_can_transition(from, to),
        from != to,
    ensures
        life_cycle_stage(from) < life_cycle_stage(to),
{
}

/// A closed stream stays closed: end-of-stream in either direction is refused.
pub proof fn lemma_closed_is_final(v: StreamView)
    requires
        v.state == StreamStateType::Closed,
    ensures
        end_sent_outcome(v).0.state == StreamStateType::Closed,
        end_sent_outcome(v).1 is Some,
        end_received_outcome(v, Seq::empty()).0.state == StreamStateType::Closed,
        end_received_outcome(v, Seq::empty()).1 is Err,
{
}


/// Priority queue entry for stream scheduling.
#[derive(Debug, Clone, Copy, PartialEq, Eq, Structural)]
pub struct PriorityEntry {
    pub stream_id: u64,
    pub priority: StreamPriority,
    pub weight: u8,
    pub dependent_on: Option<u64>,
    pub exclusive: bool,
}

/// Stream scheduling information.
#[derive(Debug, Clone, Copy, PartialEq, Eq, Structural)]
pub struct StreamSchedule {
    /// Priority level
    pub priority: StreamPriority,
    /// Stream weight
    pub weight: u8,
    /// Parent stream dependency
    pub dependent_on: Option<u64>,
    /// Whether this dependency is exclusive
    pub exclusive: bool,
}

impl Default for StreamSchedule {
    fn default() -> (s: Self)
        ensures
            s == (StreamSchedule {
                priority: StreamPriority::Normal,
                weight: 16,
                dependent_on: None,
                exclusive: false,
            }),
    {
        StreamSchedule {
            priority: StreamPriority::Normal,
            weight: 16,
            dependent_on: None,
            exclusive: false,
        }
    }
}

/// Stream manager statistics.
#[derive(Debug, Clone, Copy, PartialEq, Eq, Structural)]
pub struct StreamStats {
    /// Total number of streams
    pub total_streams: usize,
    /// Number of open streams
    pub open_streams: usize,
    /// Number of half-closed local streams
    pub half_closed_local: usize,
    /// Number of half-closed remote streams
    pub half_closed_remote: usize,
    /// Number of closed streams
    pub closed_streams: usize,
    /// Number of reset streams
    pub reset_streams: usize,
    /// Total bytes sent across all streams
    pub total_bytes_sent: u64,
    /// Total bytes received across all streams
    pub total_bytes_received: u64,
    /// Connection-level send window
    pub connection_send_window: u32,
    /// Connection-level receive window
    pub connection_recv_window: u32,
    /// Maximum concurrent streams allowed
    pub max_concurrent_streams: u64,
}

impl Default for StreamStats {
    fn default() -> (s: Self)
        ensures
            s == (StreamStats {
                total_streams: 0,
                open_streams: 0,
                half_closed_local: 0,
                half_closed_remote: 0,
                closed_streams: 0,
                reset_streams: 0,
                total_bytes_sent: 0,
                total_bytes_received: 0,
                connection_send_window: 0,
                connection_recv_window: 0,
                max_concurrent_streams: 0,
            }),
    {
        StreamStats {
            total_streams: 0,
            open_streams: 0,
            half_closed_local: 0,
            half_closed_remote: 0,
            closed_streams: 0,
            reset_streams: 0,
            total_bytes_sent: 0,
            total_bytes_received: 0,
            connection_send_window: 0,
            connection_recv_window: 0,
            max_concurrent_streams: 0,
        }
    }
}

/// The state of a stream manager.
pub struct ManagerModel {
    pub streams: Map<u64, StreamView>,
    pub next_client_stream_id: u64,
    pub next_server_stream_id: u64,
    pub max_concurrent_streams: u64,
    pub config: StreamConfig,
    pub is_client: bool,
    pub priority_queue: Seq<PriorityEntry>,
    pub dependency_tree: Map<u64, Seq<u64>>,
    pub flow: FlowModel,
    pub max_remote_stream_id: u64,
    pub idle_timeout: TimeSpan,
}

/// Manages multiple streams for HTTP/3 multiplexing.
#[derive(Debug)]
pub struct StreamManager {
    streams: HashMap<u64, StreamState>,
    next_client_stream_id: u64,
    next_server_stream_id: u64,
    max_concurrent_streams: u64,
    config: StreamConfig,
    is_client: bool,
    priority_queue: Vec<PriorityEntry>,
    dependency_tree: HashMap<u64, Vec<u64>>,
    flow_controller: FlowController,
    max_remote_stream_id: u64,
    idle_timeout: TimeSpan,
    last_cleanup: Instant,
}

spec fn views_of(m: Map<u64, StreamState>) -> Map<u64, StreamView> {
    Map::new(|k: u64| m.contains_key(k), |k: u64| m[k]@)
}

spec fn seqs_of(m: Map<u64, Vec<u64>>) -> Map<u64, Seq<u64>> {
    Map::new(|k: u64| m.contains_key(k), |k: u64| m[k]@)
}

broadcast proof fn lemma_views_insert(m: Map<u64, StreamState>, k: u64, s: StreamState)
    ensures
        #[trigger] views_of(m.insert(k, s)) == views_of(m).insert(k, s@),
{
    assert(views_of(m.insert(k, s)) =~= views_of(m).insert(k, s@));
}

proof fn lemma_views_remove(m: Map<u64, StreamState>, k: u64)
    ensures
        views_of(m.remove(k)) == views_of(m).remove(k),
{
    assert(views_of(m.remove(k)) =~= views_of(m).remove(k));
}

proof fn lemma_views_dom(m: Map<u64, StreamState>)
    ensures
        views_of(m).dom() == m.dom(),
{
    assert(views_of(m).dom() =~= m.dom());
}

proof fn lemma_seqs_remove(m: Map<u64, Vec<u64>>, k: u64)
    ensures
        seqs_of(m.remove(k)) == seqs_of(m).remove(k),
{
    assert(seqs_of(m.remove(k)) =~= seqs_of(m).remove(k));
}

impl View for StreamManager {
    type V = ManagerModel;

    closed spec fn view(&self) -> ManagerModel {
        ManagerModel {
            streams: views_of(self.streams@),
            next_client_stream_id: self.next_client_stream_id,
            next_server_stream_id: self.next_server_stream_id,
            max_concurrent_streams: self.max_concurrent_streams,
            config: self.config,
            is_client: self.is_client,
            priority_queue: self.priority_queue@,
            dependency_tree: seqs_of(self.dependency_tree@),
            flow: self.flow_controller@,
            max_remote_stream_id: self.max_remote_stream_id,
            idle_timeout: self.idle_timeout,
        }
    }
}

/// Whether the manager holds as many streams as it may.
pub open spec fn at_stream_limit(m: ManagerModel) -> bool {
    m.streams.len() >= (m.max_concurrent_streams as usize)
}

/// Whether `create_stream` gives out an identifier: the limit is not reached and the stream
/// type is opened by this side.
pub open spec fn allocates(m: ManagerModel, t: StreamType) -> bool {
    !at_stream_limit(m) && spec_client_initiated(t) == m.is_client
}

/// The identifier `create_stream` gives out next for a stream type.
pub open spec fn next_id_for(m: ManagerModel, t: StreamType) -> u64 {
    if spec_client_initiated(t) {
        m.next_client_stream_id
    } else {
        m.next_server_stream_id
    }
}

/// A new stream of the manager's configuration, already open.
pub open spec fn opened_stream(id: u64, config: StreamConfig) -> StreamView {
    StreamView { state: StreamStateType::Open, ..fresh_stream(id, config) }
}

/// The manager after `create_stream` gave out an identifier: the stream is open, the next
/// identifier of its side moves on by 4, and flow control knows the stream unless it is 0.
pub open spec fn after_create(m: ManagerModel, t: StreamType) -> ManagerModel {
    let id = next_id_for(m, t);
    ManagerModel {
        streams: m.streams.insert(id, opened_stream(id, m.config)),
        next_client_stream_id: if spec_client_initiated(t) {
            (m.next_client_stream_id + 4) as u64
        } else {
            m.next_client_stream_id
        },
        next_server_stream_id: if spec_client_initiated(t) {
            m.next_server_stream_id
        } else {
            (m.next_server_stream_id + 4) as u64
        },
        flow: if id != 0 {
            stream_added(m.flow, id)
        } else {
            m.flow
        },
        ..m
    }
}

/// Whether a stream from the peer may be accepted: the peer opens streams of its type, its
/// identifier is above every one accepted so far, and the limit is not reached.
pub open spec fn spec_can_accept(m: ManagerModel, id: u64) -> bool {
    &&& spec_client_initiated(spec_stream_type(id)) != m.is_client
    &&& id > m.max_remote_stream_id
    &&& !at_stream_limit(m)
}

/// The manager after accepting stream `id` from the peer: the stream starts idle, flow control
/// knows it, and it is the highest accepted so far.
pub open spec fn after_accept(m: ManagerModel, id: u64) -> ManagerModel {
    ManagerModel {
        streams: m.streams.insert(id, fresh_stream(id, m.config)),
        flow: stream_added(m.flow, id),
        max_remote_stream_id: id,
        ..m
    }
}

/// The stream a frame goes to: the one the manager has, or a new open one.
pub open spec fn stream_or_opened(m: ManagerModel, id: u64) -> StreamView {
    if m.streams.contains_key(id) {
        m.streams[id]
    } else {
        opened_stream(id, m.config)
    }
}

/// The manager's state with `streams` replaced.
pub open spec fn with_streams(m: ManagerModel, streams: Map<u64, StreamView>) -> ManagerModel {
    ManagerModel { streams, ..m }
}

/// The manager's state with the flow control state replaced.
pub open spec fn with_flow(m: ManagerModel, flow: FlowModel) -> ManagerModel {
    ManagerModel { flow, ..m }
}

/// Whether `res` is the stream error `NotFound(id)`.
pub open spec fn is_not_found(res: H3Result<()>, id: u64) -> bool {
    res matches Err(H3Error::Stream(StreamError::NotFound(x))) && x == id
}

impl StreamManager {
    /// Create a new stream manager: no streams, room for 100, an idle timeout of 300 s, flow
    /// control with the configured initial window for the connection and each stream.
    pub fn new(config: StreamConfig, is_client: bool) -> (sm: Self)
        ensures
            sm@ == (ManagerModel {
                streams: Map::empty(),
                next_client_stream_id: if is_client {
                    0
                } else {
                    1
                },
                next_server_stream_id: if is_client {
                    1
                } else {
                    0
                },
                max_concurrent_streams: 100,
                config,
                is_client,
                priority_queue: Seq::empty(),
                dependency_tree: Map::empty(),
                flow: fresh_flow(config.initial_window_size, config.initial_window_size),
                max_remote_stream_id: 0,
                idle_timeout: TimeSpan { nanos: 300_000_000_000 },
            }),
    {
        let flow_controller = FlowController::new(
            config.initial_window_size,
            config.initial_window_size,
        );
        let sm = StreamManager {
            streams: HashMap::new(),
            next_client_stream_id: if is_client {
                0
            } else {
                1
            },
            next_server_stream_id: if is_client {
                1
            } else {
                0
            },
            max_concurrent_streams: 100,
            config,
            is_client,
            priority_queue: Vec::new(),
            dependency_tree: HashMap::new(),
            flow_controller,
            max_remote_stream_id: 0,
            idle_timeout: TimeSpan::from_secs(300),
            last_cleanup: crate::time::now(),
        };
        assert(sm@.streams =~= Map::empty());
        assert(sm@.dependency_tree =~= Map::empty());
        sm
    }

    /// Create a new stream of this side, open at once. Refused at the stream limit and for a
    /// stream type that the peer opens.
    pub fn create_stream(&mut self, stream_type: StreamType) -> (res: H3Result<u64>)
        requires
            allocates(old(self)@, stream_type) ==> next_id_for(old(self)@, stream_type) + 4
                <= u64::MAX,
        ensures
            at_stream_limit(old(self)@) ==> final(self)@ == old(self)@ && (res matches Err(
                H3Error::Stream(StreamError::LimitExceeded),
            )),
            !at_stream_limit(old(self)@) && spec_client_initiated(stream_type)
                && !old(self)@.is_client ==> final(self)@ == old(self)@ && (res matches Err(e)
                && is_invalid_state(e, "client context"@, "server context"@)),
            !at_stream_limit(old(self)@) && !spec_client_initiated(stream_type)
                && old(self)@.is_client ==> final(self)@ == old(self)@ && (res matches Err(e)
                && is_invalid_state(e, "server context"@, "client context"@)),
            allocates(old(self)@, stream_type) ==> res == Ok::<u64, H3Error>(
                next_id_for(old(self)@, stream_type),
            ) && final(self)@ == after_create(old(self)@, stream_type),
    {
        proof {
            lemma_views_dom(self.streams@);
        }
        if self.streams.len() >= self.max_concurrent_streams as usize {
            return Err(H3Error::Stream(StreamError::LimitExceeded));
        }
        let stream_id = match stream_type {
            StreamType::ClientBidirectional | StreamType::ClientUnidirectional => {
                if !self.is_client {
                    return Err(invalid("client context", "server context".to_owned()));
                }
                let id = self.next_client_stream_id;
                self.next_client_stream_id = id + 4;
                id
            },
            StreamType::ServerBidirectional | StreamType::ServerUnidirectional => {
                if self.is_client {
                    return Err(invalid("server context", "client context".to_owned()));
                }
                let id = self.next_server_stream_id;
                self.next_server_stream_id = id + 4;
                id
            },
        };
        let mut stream_state = StreamState::new(stream_id, &self.config);
        stream_state.state = StreamStateType::Open;
        if stream_id != 0 {
            let r = self.flow_controller.initialize_stream(stream_id);
            if let Err(e) = r {
                return Err(e);
            }
        }
        proof {
            lemma_views_insert(self.streams@, stream_id, stream_state);
        }
        self.streams.insert(stream_id, stream_state);
        Ok(stream_id)
    }

    /// Get a mutable reference to a stream; the change made through it is the manager's.
    pub fn get_stream(&mut self, stream_id: u64) -> (r: Option<&mut StreamState>)
        ensures
            !old(self)@.streams.contains_key(stream_id) ==> r is None && final(self)@ == old(
                self,
            )@,
            old(self)@.streams.contains_key(stream_id) ==> r is Some && (*r.unwrap())@ == old(
                self,
            )@.streams[stream_id] && final(self)@ == with_streams(
                old(self)@,
                old(self)@.streams.insert(stream_id, (*final(r.unwrap()))@),
            ),
    {
        broadcast use lemma_views_insert;

        if !self.streams.contains_key(&stream_id) {
            return None;
        }
        match self.streams.entry(stream_id) {
            std::collections::hash_map::Entry::Occupied(o) => Some(o.into_mut()),
            std::collections::hash_map::Entry::Vacant(v) => {
                let _ = v.into_key();
                None
            },
        }
    }

    /// Get an immutable reference to a stream.
    pub fn get_stream_ref(&self, stream_id: u64) -> (r: Option<&StreamState>)
        ensures
            match r {
                Some(s) => self@.streams.contains_key(stream_id) && s@ == self@.streams[stream_id],
                None => !self@.streams.contains_key(stream_id),
            },
    {
        self.streams.get(&stream_id)
    }

    /// Close a stream and drop its flow control state.
    pub fn close_stream(&mut self, stream_id: u64) -> (res: H3Result<()>)
        ensures
            old(self)@.streams.contains_key(stream_id) ==> res is Ok && final(self)@ == (
            ManagerModel {
                streams: old(self)@.streams.insert(
                    stream_id,
                    StreamView { state: StreamStateType::Closed, ..old(self)@.streams[stream_id] },
                ),
                flow: stream_removed(old(self)@.flow, stream_id),
                ..old(self)@
            }),
            !old(self)@.streams.contains_key(stream_id) ==> final(self)@ == old(self)@
                && is_not_found(res, stream_id),
    {
        match self.streams.remove(&stream_id) {
            Some(mut stream) => {
                proof {
                    lemma_views_remove(self.streams@, stream_id);
                }
                stream.state = StreamStateType::Closed;
                proof {
                    lemma_views_insert(self.streams@, stream_id, stream);
                }
                self.streams.insert(stream_id, stream);
                self.flow_controller.remove_stream(stream_id);
                assert(self@.streams =~= old(self)@.streams.insert(
                    stream_id,
                    StreamView { state: StreamStateType::Closed, ..old(self)@.streams[stream_id] },
                ));
                Ok(())
            },
            None => {
                assert(self.streams@ =~= old(self).streams@);
                Err(H3Error::Stream(StreamError::NotFound(stream_id)))
            },
        }
    }

    /// Process a frame on the stream it names, opening that stream first when it is new.
    /// A frame that names no stream changes nothing.
    pub fn process_frame(&mut self, frame: H3Frame) -> (res: H3Result<Vec<StreamEvent>>)
        ensures
            match model_stream_id(frame@) {
                None => final(self)@ == old(self)@ && (res matches Ok(v) && v@.len() == 0),
                Some(id) => {
                    let (st, out) = frame_outcome(stream_or_opened(old(self)@, id), frame@);
                    &&& final(self)@ == with_streams(old(self)@, old(self)@.streams.insert(id, st))
                    &&& result_is(res, out)
                },
            },
    {
        match frame.stream_id() {
            Some(stream_id) => {
                let mut stream = match self.streams.remove(&stream_id) {
                    Some(s) => s,
                    None => {
                        let mut s = StreamState::new(stream_id, &self.config);
                        s.state = StreamStateType::Open;
                        s
                    },
                };
                proof {
                    lemma_views_remove(old(self).streams@, stream_id);
                }
                let r = stream.process_frame(&frame);
                proof {
                    lemma_views_insert(self.streams@, stream_id, stream);
                }
                self.streams.insert(stream_id, stream);
                assert(self@.streams =~= old(self)@.streams.insert(stream_id, stream@));
                r
            },
            None => Ok(Vec::new()),
        }
    }

    /// Get the number of active streams.
    pub fn active_stream_count(&self) -> (n: usize)
        ensures
            n == self@.streams.len(),
    {
        proof {
            lemma_views_dom(self.streams@);
        }
        self.streams.len()
    }

    /// Get all stream IDs, each once, in no particular order.
    pub fn stream_ids(&self) -> (ids: Vec<u64>)
        ensures
            ids@.to_set() == self@.streams.dom(),
            ids@.no_duplicates(),
    {
        proof {
            lemma_views_dom(self.streams@);
        }
        collect_keys(&self.streams)
    }

    /// Set maximum concurrent streams.
    pub fn set_max_concurrent_streams(&mut self, max: u64)
        ensures
            final(self)@ == (ManagerModel { max_concurrent_streams: max, ..old(self)@ }),
    {
        self.max_concurrent_streams = max;
    }

    /// Check if we can accept a new stream from the peer.
    pub fn can_accept_stream(&self, stream_id: u64) -> (b: bool)
        ensures
            b == spec_can_accept(self@, stream_id),
    {
        proof {
            lemma_views_dom(self.streams@);
        }
        let stream_type = StreamType::from_id(stream_id);
        let is_remote_initiated = match stream_type {
            StreamType::ClientBidirectional | StreamType::ClientUnidirectional => !self.is_client,
            StreamType::ServerBidirectional | StreamType::ServerUnidirectional => self.is_client,
        };
        if !is_remote_initiated {
            return false;
        }
        if stream_id <= self.max_remote_stream_id {
            return false;
        }
        if self.streams.len() >= self.max_concurrent_streams as usize {
            return false;
        }
        true
    }

    /// Accept a new stream from the peer: it starts idle, flow control knows it, and it is the
    /// highest accepted so far.
    pub fn accept_stream(&mut self, stream_id: u64) -> (res: H3Result<()>)
        ensures
            spec_can_accept(old(self)@, stream_id) ==> res is Ok && final(self)@ == after_accept(
                old(self)@,
                stream_id,
            ),
            !spec_can_accept(old(self)@, stream_id) ==> final(self)@ == old(self)@ && (res matches Err(e)
                && is_invalid_state(
                e,
                "acceptable stream"@,
                "stream "@ + decimal(stream_id as nat) + " cannot be accepted"@,
            )),
    {
        if !self.can_accept_stream(stream_id) {
            let mut actual = text_with_number("stream ", stream_id);
            push_str(&mut actual, " cannot be accepted");
            return Err(invalid("acceptable stream", actual));
        }
        let stream_state = StreamState::new(stream_id, &self.config);
        if stream_id != 0 {
            let r = self.flow_controller.initialize_stream(stream_id);
            if let Err(e) = r {
                return Err(e);
            }
        }
        proof {
            lemma_views_insert(self.streams@, stream_id, stream_state);
        }
        self.streams.insert(stream_id, stream_state);
        self.max_remote_stream_id = if stream_id >= self.max_remote_stream_id {
            stream_id
        } else {
            self.max_remote_stream_id
        };
        Ok(())
    }

    /// Reset a stream with an error code.
    pub fn reset_stream(&mut self, stream_id: u64, error_code: u64) -> (res: H3Result<()>)
        ensures
            old(self)@.streams.contains_key(stream_id) ==> res is Ok && final(self)@ == with_streams(
                old(self)@,
                old(self)@.streams.insert(
                    stream_id,
                    StreamView {
                        state: StreamStateType::Closed,
                        reset: true,
                        reset_error_code: Some(error_code),
                        ..old(self)@.streams[stream_id]
                    },
                ),
            ),
            !old(self)@.streams.contains_key(stream_id) ==> final(self)@ == old(self)@
                && is_not_found(res, stream_id),
    {
        match self.streams.remove(&stream_id) {
            Some(mut stream) => {
                proof {
                    lemma_views_remove(self.streams@, stream_id);
                }
                let r = stream.reset(error_code);
                proof {
                    lemma_views_insert(self.streams@, stream_id, stream);
                }
                self.streams.insert(stream_id, stream);
                assert(self@.streams =~= old(self)@.streams.insert(stream_id, stream@));
                r
            },
            None => {
                assert(self.streams@ =~= old(self).streams@);
                Err(H3Error::Stream(StreamError::NotFound(stream_id)))
            },
        }
    }

    /// Check if a stream exists.
    pub fn stream_exists(&self, stream_id: u64) -> (b: bool)
        ensures
            b == self@.streams.contains_key(stream_id),
    {
        self.streams.contains_key(&stream_id)
    }

    /// Get the next stream ID that `create_stream` gives out for the given type.
    pub fn next_stream_id(&self, stream_type: StreamType) -> (id: u64)
        ensures
            id == next_id_for(self@, stream_type),
    {
        match stream_type {
            StreamType::ClientBidirectional | StreamType::ClientUnidirectional => {
                self.next_client_stream_id
            },
            StreamType::ServerBidirectional | StreamType::ServerUnidirectional => {
                self.next_server_stream_id
            },
        }
    }

    /// Set idle timeout for streams.
    pub fn set_idle_timeout(&mut self, timeout: TimeSpan)
        ensures
            final(self)@ == (ManagerModel { idle_timeout: timeout, ..old(self)@ }),
    {
        self.idle_timeout = timeout;
    }

    /// Check if we can send `bytes` on a stream: it exists, may send, and flow control allows.
    pub fn can_send_data(&self, stream_id: u64, bytes: u32) -> (b: bool)
        ensures
            b == (self@.streams.contains_key(stream_id) && state_can_send(
                self@.streams[stream_id].state,
            ) && model_can_send(self@.flow, stream_id, bytes)),
    {
        match self.streams.get(&stream_id) {
            Some(stream) => {
                if !stream.can_send() {
                    return false;
                }
            },
            None => {
                return false;
            },
        }
        self.flow_controller.can_send(stream_id, bytes)
    }

    /// Reserve flow control window for sending data.
    pub fn reserve_send_window(&mut self, stream_id: u64, bytes: u32) -> (res: H3Result<
        Vec<FlowControlEvent>,
    >)
        requires
            reserve_goes_through(old(self)@.flow, stream_id, bytes) ==> old(self)@.flow.total_bytes_sent
                + bytes <= u64::MAX,
        ensures
            res matches Ok(events) && events@ == spec_reserve(old(self)@.flow, stream_id, bytes).1,
            final(self)@ == with_flow(old(self)@, spec_reserve(old(self)@.flow, stream_id, bytes).0),
    {
        self.flow_controller.reserve_send_window(stream_id, bytes)
    }

    /// Process received data and update flow control.
    pub fn process_received_data(&mut self, stream_id: u64, bytes: u32) -> (res: H3Result<
        Vec<FlowControlEvent>,
    >)
        requires
            old(self)@.flow.total_bytes_received + bytes <= u64::MAX,
        ensures
            receive_result(old(self)@.flow, final(self)@.flow, stream_id, bytes, res),
            final(self)@ == with_flow(old(self)@, final(self)@.flow),
    {
        self.flow_controller.process_received_data(stream_id, bytes)
    }

    /// Update send window with a window update frame.
    pub fn update_send_window(&mut self, stream_id: u64, increment: u32) -> (res: H3Result<()>)
        ensures
            update_send_result(old(self)@.flow, final(self)@.flow, stream_id, increment, res),
            final(self)@ == with_flow(old(self)@, final(self)@.flow),
    {
        self.flow_controller.update_send_window(stream_id, increment)
    }

    /// Update receive window (after sending window update).
    pub fn update_recv_window(&mut self, stream_id: u64, increment: u32) -> (res: H3Result<()>)
        ensures
            update_recv_result(old(self)@.flow, final(self)@.flow, stream_id, increment, res),
            final(self)@ == with_flow(old(self)@, final(self)@.flow),
    {
        self.flow_controller.update_recv_window(stream_id, increment)
    }

    /// Get current send window for a stream.
    pub fn send_window(&self, stream_id: u64) -> (w: u32)
        ensures
            w == model_send_window(self@.flow, stream_id),
    {
        self.flow_controller.send_window(stream_id)
    }

    /// Get current receive window for a stream.
    pub fn recv_window(&self, stream_id: u64) -> (w: u32)
        ensures
            w == model_recv_window(self@.flow, stream_id),
    {
        self.flow_controller.recv_window(stream_id)
    }

    /// Get effective send window (minimum of connection and stream).
    pub fn effective_send_window(&self, stream_id: u64) -> (w: u32)
        ensures
            w == model_effective_send_window(self@.flow, stream_id),
    {
        self.flow_controller.effective_send_window(stream_id)
    }

    /// Get connection-level send window.
    pub fn connection_send_window(&self) -> (w: u32)
        ensures
            w == self@.flow.connection_send_window,
    {
        self.flow_controller.send_window(0)
    }

    /// Get connection-level receive window.
    pub fn connection_recv_window(&self) -> (w: u32)
        ensures
            w == self@.flow.connection_recv_window,
    {
        self.flow_controller.recv_window(0)
    }

    /// Get flow control statistics.
    pub fn flow_control_stats(&self) -> (s: FlowControlStats)
        ensures
            s == flow_stats(self@.flow),
    {
        self.flow_controller.get_stats()
    }
}


/// The queue entry for a stream scheduled with `s`.
pub open spec fn entry_for(id: u64, s: StreamSchedule) -> PriorityEntry {
    PriorityEntry {
        stream_id: id,
        priority: s.priority,
        weight: s.weight,
        dependent_on: s.dependent_on,
        exclusive: s.exclusive,
    }
}

/// The children recorded under `parent`, none when it has no entry.
pub open spec fn children_in(tree: Map<u64, Seq<u64>>, parent: u64) -> Seq<u64> {
    if tree.contains_key(parent) {
        tree[parent]
    } else {
        Seq::empty()
    }
}

/// `tree` with `child` appended under the parent that `dep` names, if it names one.
pub open spec fn tree_with_child(tree: Map<u64, Seq<u64>>, dep: Option<u64>, child: u64) -> Map<
    u64,
    Seq<u64>,
> {
    match dep {
        Some(p) => tree.insert(p, children_in(tree, p).push(child)),
        None => tree,
    }
}

/// `s` without the occurrences of `x`, the rest in order.
pub open spec fn without(s: Seq<u64>, x: u64) -> Seq<u64>
    decreases s.len(),
{
    if s.len() == 0 {
        s
    } else {
        let r = without(s.drop_last(), x);
        if s.last() == x {
            r
        } else {
            r.push(s.last())
        }
    }
}

/// `tree` with `x` taken out of every list of children (the lists stay, possibly empty).
pub open spec fn tree_without(tree: Map<u64, Seq<u64>>, x: u64) -> Map<u64, Seq<u64>> {
    Map::new(|k: u64| tree.contains_key(k), |k: u64| without(tree[k], x))
}

/// The queue without the entries of stream `x`, the rest in order.
pub open spec fn entries_without(q: Seq<PriorityEntry>, x: u64) -> Seq<PriorityEntry>
    decreases q.len(),
{
    if q.len() == 0 {
        q
    } else {
        let r = entries_without(q.drop_last(), x);
        if q.last().stream_id == x {
            r
        } else {
            r.push(q.last())
        }
    }
}

/// Whether `i` is the first place of stream `id` in the queue.
pub open spec fn is_first_entry(q: Seq<PriorityEntry>, id: u64, i: int) -> bool {
    &&& 0 <= i < q.len()
    &&& q[i].stream_id == id
    &&& forall|j: int| 0 <= j < i ==> q[j].stream_id != id
}

/// The queue with the first entry of stream `id`, if there is one, rescheduled with `s`.
pub open spec fn queue_rescheduled(q: Seq<PriorityEntry>, id: u64, s: StreamSchedule) -> Seq<
    PriorityEntry,
> {
    if exists|i: int| is_first_entry(q, id, i) {
        q.update(choose|i: int| is_first_entry(q, id, i), entry_for(id, s))
    } else {
        q
    }
}

/// Whether entry `a` is scheduled before `b`: more urgent priority, or the same priority and
/// a larger weight.
pub open spec fn goes_before(a: PriorityEntry, b: PriorityEntry) -> bool {
    ||| priority_rank(a.priority) < priority_rank(b.priority)
    ||| priority_rank(a.priority) == priority_rank(b.priority) && a.weight > b.weight
}

/// `s` with `e` put after every entry that `e` does not go before.
pub open spec fn insert_entry(s: Seq<PriorityEntry>, e: PriorityEntry) -> Seq<PriorityEntry>
    decreases s.len(),
{
    if s.len() == 0 {
        seq![e]
    } else if goes_before(e, s.last()) {
        insert_entry(s.drop_last(), e).push(s.last())
    } else {
        s.push(e)
    }
}

/// The queue in scheduling order: stable sort by priority, then by weight, larger first.
pub open spec fn schedule_order(q: Seq<PriorityEntry>) -> Seq<PriorityEntry>
    decreases q.len(),
{
    if q.len() == 0 {
        q
    } else {
        insert_entry(schedule_order(q.drop_last()), q.last())
    }
}

/// Whether the stream of a queue entry exists, may send, and has send window left.
pub open spec fn sendable_in(m: ManagerModel, e: PriorityEntry) -> bool {
    &&& m.streams.contains_key(e.stream_id)
    &&& state_can_send(m.streams[e.stream_id].state)
    &&& m.streams[e.stream_id].send_window > 0
}

/// The streams of the entries of `s` that can send, in the order of `s`.
pub open spec fn sendable_ids(m: ManagerModel, s: Seq<PriorityEntry>) -> Seq<u64>
    decreases s.len(),
{
    if s.len() == 0 {
        Seq::empty()
    } else {
        let r = sendable_ids(m, s.drop_last());
        if sendable_in(m, s.last()) {
            r.push(s.last().stream_id)
        } else {
            r
        }
    }
}

/// Whether `ks` lists the keys of `streams`, each once.
pub open spec fn lists_keys(ks: Seq<u64>, streams: Map<u64, StreamView>) -> bool {
    ks.no_duplicates() && ks.to_set() == streams.dom()
}

/// The window updates that the streams named in `ks` need, by their own windows.
pub open spec fn window_updates_over(streams: Map<u64, StreamView>, ks: Seq<u64>) -> Seq<(u64, u32)>
    decreases ks.len(),
{
    if ks.len() == 0 {
        Seq::empty()
    } else {
        let r = window_updates_over(streams, ks.drop_last());
        let s = streams[ks.last()];
        if s.recv_window < s.initial_window_size / 2 {
            r.push((s.id, (s.initial_window_size - s.recv_window) as u32))
        } else {
            r
        }
    }
}

/// The streams named in `ks` that can send with an effective send window under 1024, with
/// that window.
pub open spec fn backpressure_over(m: ManagerModel, ks: Seq<u64>) -> Seq<(u64, u32)>
    decreases ks.len(),
{
    if ks.len() == 0 {
        Seq::empty()
    } else {
        let r = backpressure_over(m, ks.drop_last());
        let k = ks.last();
        let w = model_effective_send_window(m.flow, k);
        if state_can_send(m.streams[k].state) && w < 1024 {
            r.push((k, w))
        } else {
            r
        }
    }
}

/// The streams named in `ks` whose flow control receive window is at most half the configured
/// initial window, with the increment back to it.
pub open spec fn flow_updates_over(m: ManagerModel, ks: Seq<u64>) -> Seq<(u64, u32)>
    decreases ks.len(),
{
    if ks.len() == 0 {
        Seq::empty()
    } else {
        let r = flow_updates_over(m, ks.drop_last());
        let k = ks.last();
        let w = model_recv_window(m.flow, k);
        let init = m.config.initial_window_size;
        if w <= init / 2 {
            r.push((k, (init - w) as u32))
        } else {
            r
        }
    }
}

/// The connection-level entry of `get_streams_needing_flow_control_updates`.
pub open spec fn connection_flow_update(m: ManagerModel) -> Seq<(u64, u32)> {
    let w = m.flow.connection_recv_window;
    let init = m.config.initial_window_size;
    if w <= init / 2 {
        seq![(0u64, (init - w) as u32)]
    } else {
        Seq::empty()
    }
}

/// The manager without stream `id`: its state, queue entries, dependency entries and flow
/// control windows go.
pub open spec fn purge_one(m: ManagerModel, id: u64) -> ManagerModel {
    ManagerModel {
        streams: m.streams.remove(id),
        priority_queue: entries_without(m.priority_queue, id),
        dependency_tree: tree_without(m.dependency_tree.remove(id), id),
        flow: stream_removed(m.flow, id),
        ..m
    }
}

/// The manager without the streams in `ids`, taken out in order.
pub open spec fn purge(m: ManagerModel, ids: Seq<u64>) -> ManagerModel
    decreases ids.len(),
{
    if ids.len() == 0 {
        m
    } else {
        purge_one(purge(m, ids.drop_last()), ids.last())
    }
}

/// Whether an idle time exceeds a timeout.
pub fn idle_exceeds(idle: TimeSpan, timeout: TimeSpan) -> (b: bool)
    ensures
        b == (idle.nanos > timeout.nanos),
{
    idle.nanos > timeout.nanos
}

/// The stream identifiers of `idle`, in order.
pub open spec fn idle_keys(idle: Seq<(u64, TimeSpan)>) -> Seq<u64> {
    Seq::new(idle.len(), |i: int| idle[i].0)
}

/// Whether `idle` lists stream `k` as idle longer than `timeout`.
pub open spec fn listed_idle_spec(idle: Seq<(u64, TimeSpan)>, k: u64, timeout: TimeSpan) -> bool {
    exists|i: int| 0 <= i < idle.len() && idle[i].0 == k && idle[i].1.nanos > timeout.nanos
}

/// Whether a cleanup removes stream `k`: it is closed, or `idle` lists it as idle longer than
/// the idle timeout.
pub open spec fn cleanup_removes(m: ManagerModel, idle: Seq<(u64, TimeSpan)>, k: u64) -> bool {
    m.streams[k].state == StreamStateType::Closed || listed_idle_spec(idle, k, m.idle_timeout)
}

/// Whether `idle` lists stream `k` as idle longer than `timeout`.
fn listed_idle(idle: &Vec<(u64, TimeSpan)>, k: u64, timeout: TimeSpan) -> (b: bool)
    ensures
        b == listed_idle_spec(idle@, k, timeout),
{
    let mut i: usize = 0;
    while i < idle.len()
        invariant
            0 <= i <= idle@.len(),
            forall|j: int| 0 <= j < i ==> !(idle@[j].0 == k && idle@[j].1.nanos > timeout.nanos),
        decreases idle@.len() - i,
    {
        if idle[i].0 == k && idle[i].1.nanos > timeout.nanos {
            return true;
        }
        i = i + 1;
    }
    false
}

/// The streams that are not closed.
pub open spec fn unclosed(streams: Map<u64, StreamView>) -> Map<u64, StreamView> {
    Map::new(
        |k: u64| streams.contains_key(k) && streams[k].state != StreamStateType::Closed,
        |k: u64| streams[k],
    )
}

/// Counts and sums over streams.
pub struct StreamTotals {
    pub total: nat,
    pub open: nat,
    pub half_closed_local: nat,
    pub half_closed_remote: nat,
    pub closed: nat,
    pub reset: nat,
    pub bytes_sent: nat,
    pub bytes_received: nat,
}

/// Nothing counted.
pub open spec fn no_totals() -> StreamTotals {
    StreamTotals {
        total: 0,
        open: 0,
        half_closed_local: 0,
        half_closed_remote: 0,
        closed: 0,
        reset: 0,
        bytes_sent: 0,
        bytes_received: 0,
    }
}

/// `t` with stream `s` counted.
pub open spec fn count_stream(t: StreamTotals, s: StreamView) -> StreamTotals {
    StreamTotals {
        total: t.total + 1,
        open: t.open + if s.state == StreamStateType::Open { 1nat } else { 0nat },
        half_closed_local: t.half_closed_local + if s.state == StreamStateType::HalfClosedLocal {
            1nat
        } else {
            0nat
        },
        half_closed_remote: t.half_closed_remote + if s.state
            == StreamStateType::HalfClosedRemote {
            1nat
        } else {
            0nat
        },
        closed: t.closed + if s.state == StreamStateType::Closed { 1nat } else { 0nat },
        reset: t.reset + if s.reset { 1nat } else { 0nat },
        bytes_sent: t.bytes_sent + s.bytes_sent as nat,
        bytes_received: t.bytes_received + s.bytes_received as nat,
    }
}

/// Counting the stream under key `k`.
pub open spec fn count_key(streams: Map<u64, StreamView>) -> spec_fn(StreamTotals, u64) -> StreamTotals {
    |t: StreamTotals, k: u64| count_stream(t, streams[k])
}

/// The counts and sums over the streams whose keys are in `keys`.
pub open spec fn totals_over(streams: Map<u64, StreamView>, keys: Set<u64>) -> StreamTotals {
    keys.fold(no_totals(), count_key(streams))
}

/// The statistics of a manager.
pub open spec fn stats_of(m: ManagerModel) -> StreamStats {
    let t = totals_over(m.streams, m.streams.dom());
    StreamStats {
        total_streams: t.total as usize,
        open_streams: t.open as usize,
        half_closed_local: t.half_closed_local as usize,
        half_closed_remote: t.half_closed_remote as usize,
        closed_streams: t.closed as usize,
        reset_streams: t.reset as usize,
        total_bytes_sent: t.bytes_sent as u64,
        total_bytes_received: t.bytes_received as u64,
        connection_send_window: m.flow.connection_send_window,
        connection_recv_window: m.flow.connection_recv_window,
        max_concurrent_streams: m.max_concurrent_streams,
    }
}

proof fn lemma_count_key_commutes(streams: Map<u64, StreamView>)
    ensures
        vstd::set::fold::is_fun_commutative(count_key(streams)),
{
}

fn goes_before_exec(a: &PriorityEntry, b: &PriorityEntry) -> (r: bool)
    ensures
        r == goes_before(*a, *b),
{
    let ra = rank_of(a.priority);
    let rb = rank_of(b.priority);
    ra < rb || (ra == rb && a.weight > b.weight)
}

proof fn lemma_insert_entry_at(s: Seq<PriorityEntry>, e: PriorityEntry, j: int)
    requires
        0 <= j <= s.len(),
        forall|k: int| j <= k < s.len() ==> goes_before(e, #[trigger] s[k]),
        j > 0 ==> !goes_before(e, s[j - 1]),
    ensures
        insert_entry(s, e) == s.insert(j, e),
    decreases s.len(),
{
    if s.len() == 0 {
        assert(s.insert(j, e) =~= seq![e]);
    } else if j == s.len() {
        assert(s.insert(j, e) =~= s.push(e));
    } else {
        assert(goes_before(e, s[s.len() - 1]));
        lemma_insert_entry_at(s.drop_last(), e, j);
        assert(s.insert(j, e) =~= s.drop_last().insert(j, e).push(s.last()));
    }
}

fn insert_scheduled(v: &mut Vec<PriorityEntry>, e: PriorityEntry)
    ensures
        final(v)@ == insert_entry(old(v)@, e),
{
    let mut j = v.len();
    while j > 0 && goes_before_exec(&e, &v[j - 1])
        invariant
            j <= v.len(),
            forall|k: int| j <= k < v.len() ==> goes_before(e, #[trigger] v@[k]),
        decreases j,
    {
        j = j - 1;
    }
    proof {
        lemma_insert_entry_at(v@, e, j as int);
    }
    v.insert(j, e);
}

fn scheduled(q: &Vec<PriorityEntry>) -> (r: Vec<PriorityEntry>)
    ensures
        r@ == schedule_order(q@),
{
    let mut r: Vec<PriorityEntry> = Vec::new();
    for i in 0..q.len()
        invariant
            r@ == schedule_order(q@.take(i as int)),
    {
        assert(q@.take(i + 1).drop_last() =~= q@.take(i as int));
        insert_scheduled(&mut r, q[i]);
    }
    assert(q@.take(q.len() as int) =~= q@);
    r
}

fn filtered(v: &Vec<u64>, x: u64) -> (r: Vec<u64>)
    ensures
        r@ == without(v@, x),
{
    let mut r: Vec<u64> = Vec::new();
    for i in 0..v.len()
        invariant
            r@ == without(v@.take(i as int), x),
    {
        assert(v@.take(i + 1).drop_last() =~= v@.take(i as int));
        if v[i] != x {
            r.push(v[i]);
        }
    }
    assert(v@.take(v.len() as int) =~= v@);
    r
}

fn drop_entries(q: &mut Vec<PriorityEntry>, x: u64)
    ensures
        final(q)@ == entries_without(old(q)@, x),
{
    let mut r: Vec<PriorityEntry> = Vec::new();
    for i in 0..q.len()
        invariant
            r@ == entries_without(q@.take(i as int), x),
    {
        assert(q@.take(i + 1).drop_last() =~= q@.take(i as int));
        if q[i].stream_id != x {
            r.push(q[i]);
        }
    }
    assert(q@.take(q.len() as int) =~= q@);
    *q = r;
}

fn prune_tree(tree: &mut HashMap<u64, Vec<u64>>, x: u64)
    ensures
        seqs_of(final(tree)@) == tree_without(seqs_of(old(tree)@), x),
{
    let keys = collect_keys(tree);
    let ghost old_tree = tree@;
    for i in 0..keys.len()
        invariant
            keys@.to_set() == old_tree.dom(),
            keys@.no_duplicates(),
            tree@.dom() == old_tree.dom(),
            forall|k: u64|
                #![trigger tree@[k]]
                tree@.contains_key(k) ==> tree@[k]@ == (if keys@.take(i as int).contains(k) {
                    without(old_tree[k]@, x)
                } else {
                    old_tree[k]@
                }),
    {
        let k = keys[i];
        assert(keys@.to_set().contains(k));
        proof {
            lemma_take_next(keys@, i as int);
            lemma_not_in_prefix(keys@, i as int);
        }
        match tree.remove(&k) {
            Some(children) => {
                let kept = filtered(&children, x);
                tree.insert(k, kept);
            },
            None => {},
        }
        assert(tree@.dom() =~= old_tree.dom());
    }
    assert(keys@.take(keys.len() as int) =~= keys@);
    assert(seqs_of(tree@) =~= tree_without(seqs_of(old_tree), x)) by {
        assert forall|k: u64| tree@.contains_key(k) implies keys@.contains(k) by {
            assert(keys@.to_set().contains(k));
        }
    }
}

fn reschedule_entry(q: &mut Vec<PriorityEntry>, stream_id: u64, schedule: StreamSchedule)
    ensures
        final(q)@ == queue_rescheduled(old(q)@, stream_id, schedule),
{
    let mut i: usize = 0;
    let n = q.len();
    while i < n
        invariant_except_break
            n == q.len(),
            q@ == old(q)@,
            i <= n,
            forall|j: int| 0 <= j < i ==> q@[j].stream_id != stream_id,
        ensures
            q@ == queue_rescheduled(old(q)@, stream_id, schedule),
        decreases n - i,
    {
        if q[i].stream_id == stream_id {
            let ghost q0 = q@;
            assert(is_first_entry(q0, stream_id, i as int));
            assert forall|k: int| is_first_entry(q0, stream_id, k) implies k == i by {
                if k > i {
                    assert(q0[i as int].stream_id != stream_id);
                }
            }
            let entry = PriorityEntry {
                stream_id,
                priority: schedule.priority,
                weight: schedule.weight,
                dependent_on: schedule.dependent_on,
                exclusive: schedule.exclusive,
            };
            q.set(i, entry);
            break;
        }
        i = i + 1;
    }
}

fn add_child(tree: &mut HashMap<u64, Vec<u64>>, parent: u64, child: u64)
    ensures
        seqs_of(final(tree)@) == tree_with_child(seqs_of(old(tree)@), Some(parent), child),
{
    let mut children = match tree.remove(&parent) {
        Some(v) => v,
        None => Vec::new(),
    };
    children.push(child);
    tree.insert(parent, children);
    assert(seqs_of(tree@) =~= tree_with_child(seqs_of(old(tree)@), Some(parent), child));
}

fn drop_closed(streams: &mut HashMap<u64, StreamState>)
    ensures
        views_of(final(streams)@) == unclosed(views_of(old(streams)@)),
{
    let keys = collect_keys(streams);
    let ghost before = streams@;
    for i in 0..keys.len()
        invariant
            keys@.to_set() == before.dom(),
            forall|k: u64|
                #[trigger] streams@.contains_key(k) == (before.contains_key(k) && !(keys@.take(
                    i as int,
                ).contains(k) && before[k].state == StreamStateType::Closed)),
            forall|k: u64| #[trigger] streams@.contains_key(k) ==> streams@[k] == before[k],
    {
        let k = keys[i];
        proof {
            lemma_take_next(keys@, i as int);
        }
        let closed = match streams.get(&k) {
            Some(s) => s.is_closed(),
            None => false,
        };
        if closed {
            streams.remove(&k);
        }
        assert(keys@.to_set().contains(k));
    }
    assert(keys@.take(keys.len() as int) =~= keys@);
    assert(views_of(streams@) =~= unclosed(views_of(before))) by {
        assert forall|k: u64| before.contains_key(k) implies keys@.contains(k) by {
            assert(keys@.to_set().contains(k));
        }
    }
}

impl StreamManager {
    /// Create a stream with scheduling information: the stream is queued with it and, when it
    /// depends on a parent, recorded as that parent's child. Refused as `create_stream` is.
    pub fn create_stream_with_priority(
        &mut self,
        stream_type: StreamType,
        schedule: StreamSchedule,
    ) -> (res: H3Result<u64>)
        requires
            allocates(old(self)@, stream_type) ==> next_id_for(old(self)@, stream_type) + 4
                <= u64::MAX,
        ensures
            !allocates(old(self)@, stream_type) ==> final(self)@ == old(self)@ && res is Err,
            at_stream_limit(old(self)@) ==> (res matches Err(
                H3Error::Stream(StreamError::LimitExceeded),
            )),
            !at_stream_limit(old(self)@) && spec_client_initiated(stream_type)
                && !old(self)@.is_client ==> (res matches Err(e) && is_invalid_state(
                e,
                "client context"@,
                "server context"@,
            )),
            !at_stream_limit(old(self)@) && !spec_client_initiated(stream_type)
                && old(self)@.is_client ==> (res matches Err(e) && is_invalid_state(
                e,
                "server context"@,
                "client context"@,
            )),
            allocates(old(self)@, stream_type) ==> ({
                let id = next_id_for(old(self)@, stream_type);
                let c = after_create(old(self)@, stream_type);
                &&& res == Ok::<u64, H3Error>(id)
                &&& final(self)@ == ManagerModel {
                    priority_queue: c.priority_queue.push(entry_for(id, schedule)),
                    dependency_tree: tree_with_child(c.dependency_tree, schedule.dependent_on, id),
                    ..c
                }
            }),
    {
        let stream_id = match self.create_stream(stream_type) {
            Ok(id) => id,
            Err(e) => {
                return Err(e);
            },
        };
        let entry = PriorityEntry {
            stream_id,
            priority: schedule.priority,
            weight: schedule.weight,
            dependent_on: schedule.dependent_on,
            exclusive: schedule.exclusive,
        };
        self.priority_queue.push(entry);
        if let Some(parent_id) = schedule.dependent_on {
            add_child(&mut self.dependency_tree, parent_id, stream_id);
        }
        Ok(stream_id)
    }

    /// Update stream priority: the stream's first queue entry takes the new schedule, and the
    /// stream moves in the dependency tree under its new parent, if any.
    pub fn update_stream_priority(&mut self, stream_id: u64, schedule: StreamSchedule) -> (res:
        H3Result<()>)
        ensures
            res is Ok,
            final(self)@ == (ManagerModel {
                priority_queue: queue_rescheduled(old(self)@.priority_queue, stream_id, schedule),
                dependency_tree: tree_with_child(
                    tree_without(old(self)@.dependency_tree, stream_id),
                    schedule.dependent_on,
                    stream_id,
                ),
                ..old(self)@
            }),
    {
        reschedule_entry(&mut self.priority_queue, stream_id, schedule);
        prune_tree(&mut self.dependency_tree, stream_id);
        if let Some(parent_id) = schedule.dependent_on {
            add_child(&mut self.dependency_tree, parent_id, stream_id);
        }
        Ok(())
    }

    /// Get the streams ready to send, in scheduling order: the queue sorted by priority and
    /// then by weight (larger first), keeping the streams that exist, may send and have send
    /// window left.
    pub fn get_sendable_streams(&self) -> (ids: Vec<u64>)
        ensures
            ids@ == sendable_ids(self@, schedule_order(self@.priority_queue)),
    {
        let order = scheduled(&self.priority_queue);
        let mut sendable: Vec<u64> = Vec::new();
        for i in 0..order.len()
            invariant
                sendable@ == sendable_ids(self@, order@.take(i as int)),
        {
            assert(order@.take(i + 1).drop_last() =~= order@.take(i as int));
            let entry = order[i];
            match self.streams.get(&entry.stream_id) {
                Some(stream) => {
                    if stream.can_send() && stream.send_window > 0 {
                        sendable.push(entry.stream_id);
                    }
                },
                None => {},
            }
        }
        assert(order@.take(order.len() as int) =~= order@);
        sendable
    }

    /// Get the streams whose receive window is below half of their initial window, each with
    /// the increment back to it, in no particular order.
    pub fn get_streams_needing_window_updates(&self) -> (updates: Vec<(u64, u32)>)
        ensures
            exists|ks: Seq<u64>|
                lists_keys(ks, self@.streams) && updates@ == window_updates_over(self@.streams, ks),
    {
        proof {
            lemma_views_dom(self.streams@);
        }
        let keys = collect_keys(&self.streams);
        let mut updates: Vec<(u64, u32)> = Vec::new();
        for i in 0..keys.len()
            invariant
                keys@.to_set() == self@.streams.dom(),
                updates@ == window_updates_over(self@.streams, keys@.take(i as int)),
        {
            assert(keys@.take(i + 1).drop_last() =~= keys@.take(i as int));
            assert(keys@.to_set().contains(keys@[i as int]));
            match self.streams.get(&keys[i]) {
                Some(stream) => {
                    if stream.needs_window_update() {
                        let increment = stream.calculate_window_update();
                        updates.push((stream.id, increment));
                    }
                },
                None => {},
            }
        }
        assert(keys@.take(keys.len() as int) =~= keys@);
        assert(lists_keys(keys@, self@.streams));
        updates
    }

    /// Handle backpressure: the streams that may send but whose effective send window is under
    /// 1024 bytes, with that window (0 when blocked), in no particular order.
    pub fn handle_backpressure(&mut self) -> (blocked: Vec<(u64, u32)>)
        ensures
            final(self)@ == old(self)@,
            exists|ks: Seq<u64>|
                lists_keys(ks, old(self)@.streams) && blocked@ == backpressure_over(old(self)@, ks),
    {
        proof {
            lemma_views_dom(self.streams@);
        }
        let keys = collect_keys(&self.streams);
        let mut blocked: Vec<(u64, u32)> = Vec::new();
        for i in 0..keys.len()
            invariant
                keys@.to_set() == self@.streams.dom(),
                blocked@ == backpressure_over(self@, keys@.take(i as int)),
        {
            let stream_id = keys[i];
            assert(keys@.take(i + 1).drop_last() =~= keys@.take(i as int));
            assert(keys@.to_set().contains(stream_id));
            match self.streams.get(&stream_id) {
                Some(stream) => {
                    if stream.can_send() {
                        let effective_window = self.effective_send_window(stream_id);
                        if effective_window == 0 {
                            blocked.push((stream_id, 0));
                        } else if effective_window < 1024 {
                            blocked.push((stream_id, effective_window));
                        }
                    }
                },
                None => {},
            }
        }
        assert(keys@.take(keys.len() as int) =~= keys@);
        assert(lists_keys(keys@, self@.streams));
        blocked
    }

    /// Get the flow control window updates due: the connection first when its receive window
    /// is at most half the configured initial window, then each stream whose flow control
    /// receive window is (in no particular order), each with the increment back to it.
    pub fn get_streams_needing_flow_control_updates(&self) -> (updates: Vec<(u64, u32)>)
        ensures
            exists|ks: Seq<u64>|
                lists_keys(ks, self@.streams) && updates@ == connection_flow_update(self@)
                    + flow_updates_over(self@, ks),
    {
        proof {
            lemma_views_dom(self.streams@);
        }
        let mut updates: Vec<(u64, u32)> = Vec::new();
        let conn_recv_window = self.connection_recv_window();
        let conn_initial = self.config.initial_window_size;
        if conn_recv_window <= conn_initial / 2 {
            updates.push((0, conn_initial - conn_recv_window));
        }
        let ghost head = updates@;
        assert(head =~= connection_flow_update(self@));
        let keys = collect_keys(&self.streams);
        for i in 0..keys.len()
            invariant
                updates@ == head + flow_updates_over(self@, keys@.take(i as int)),
                conn_initial == self@.config.initial_window_size,
        {
            let stream_id = keys[i];
            assert(keys@.take(i + 1).drop_last() =~= keys@.take(i as int));
            let recv_window = self.recv_window(stream_id);
            if recv_window <= conn_initial / 2 {
                updates.push((stream_id, conn_initial - recv_window));
            }
            assert(updates@ =~= head + flow_updates_over(self@, keys@.take(i + 1)));
        }
        assert(keys@.take(keys.len() as int) =~= keys@);
        assert(lists_keys(keys@, self@.streams));
        updates
    }

    /// Remove closed streams to free memory (their flow control state stays).
    pub fn cleanup_closed_streams(&mut self)
        ensures
            final(self)@ == with_streams(old(self)@, unclosed(old(self)@.streams)),
    {
        drop_closed(&mut self.streams);
    }

    /// When the last cleanup ran.
    pub closed spec fn last_cleanup_time(&self) -> Instant {
        self.last_cleanup
    }

    fn purge_stream(&mut self, stream_id: u64)
        ensures
            final(self)@ == purge_one(old(self)@, stream_id),
            final(self).last_cleanup_time() == old(self).last_cleanup_time(),
    {
        proof {
            lemma_views_remove(self.streams@, stream_id);
            lemma_seqs_remove(self.dependency_tree@, stream_id);
        }
        self.streams.remove(&stream_id);
        drop_entries(&mut self.priority_queue, stream_id);
        self.dependency_tree.remove(&stream_id);
        prune_tree(&mut self.dependency_tree, stream_id);
        self.flow_controller.remove_stream(stream_id);
    }

    /// Remove the streams in `ids`, one after the other, with their queue entries, dependency
    /// entries and flow control state.
    pub fn remove_streams(&mut self, ids: &Vec<u64>)
        ensures
            final(self)@ == purge(old(self)@, ids@),
            final(self).last_cleanup_time() == old(self).last_cleanup_time(),
    {
        for i in 0..ids.len()
            invariant
                self@ == purge(old(self)@, ids@.take(i as int)),
                self.last_cleanup_time() == old(self).last_cleanup_time(),
        {
            assert(ids@.take(i + 1).drop_last() =~= ids@.take(i as int));
            self.purge_stream(ids[i]);
        }
        assert(ids@.take(ids.len() as int) =~= ids@);
    }

    /// Periodic cleanup, at most every 30 seconds by the clock: the streams that are closed or
    /// idle longer than the idle timeout are removed (see `cleanup_streams_at`, which this
    /// calls with the clock's readings). Which ones are idle, and whether the cleanup runs,
    /// depends on the clock; when it runs, every closed stream goes.
    pub fn cleanup_idle_streams(&mut self)
        ensures
            final(self)@ == old(self)@ || exists|idle: Seq<(u64, TimeSpan)>, ids: Seq<u64>|
                {
                    &&& idle_keys(idle).no_duplicates()
                    &&& idle_keys(idle).to_set() == old(self)@.streams.dom()
                    &&& ids.no_duplicates()
                    &&& forall|k: u64|
                        #[trigger] ids.contains(k) == (old(self)@.streams.contains_key(k)
                            && cleanup_removes(old(self)@, idle, k))
                    &&& final(self)@ == purge(old(self)@, ids)
                },
    {
        let now = crate::time::now();
        let since = crate::time::duration_between(&now, &self.last_cleanup);
        let idle = self.idle_times();
        self.cleanup_streams_at(since, &idle, now);
    }

    /// How long each stream has been idle, by the clock now: every stream, each once.
    fn idle_times(&self) -> (idle: Vec<(u64, TimeSpan)>)
        ensures
            idle_keys(idle@).no_duplicates(),
            idle_keys(idle@).to_set() == self@.streams.dom(),
    {
        proof {
            lemma_views_dom(self.streams@);
        }
        let keys = collect_keys(&self.streams);
        let mut idle: Vec<(u64, TimeSpan)> = Vec::new();
        for i in 0..keys.len()
            invariant
                keys@.to_set() == self.streams@.dom(),
                idle_keys(idle@) == keys@.take(i as int),
        {
            let stream_id = keys[i];
            proof {
                assert(keys@.to_set().contains(stream_id));
            }
            match self.streams.get(&stream_id) {
                Some(stream) => {
                    let ghost before = idle@;
                    idle.push((stream_id, crate::time::elapsed_since(&stream.last_activity)));
                    assert(idle_keys(idle@) =~= idle_keys(before).push(stream_id));
                    assert(keys@.take(i + 1) =~= keys@.take(i as int).push(stream_id));
                },
                None => {
                    assert(false);
                },
            }
        }
        assert(keys@.take(keys.len() as int) =~= keys@);
        idle
    }

    /// The cleanup, given the clock's readings: `since_last_cleanup` is the time since the last
    /// cleanup, `idle` lists streams with the time each has been idle, and `now` is recorded
    /// as the time of this cleanup. Under 30 seconds since the last cleanup nothing happens.
    /// Otherwise exactly the streams that are closed, or that `idle` lists as idle longer than
    /// the idle timeout, are removed (with their queue entries, dependency entries and flow
    /// control state).
    pub fn cleanup_streams_at(
        &mut self,
        since_last_cleanup: TimeSpan,
        idle: &Vec<(u64, TimeSpan)>,
        now: Instant,
    )
        ensures
            since_last_cleanup.nanos < 30_000_000_000 ==> final(self)@ == old(self)@
                && final(self).last_cleanup_time() == old(self).last_cleanup_time(),
            since_last_cleanup.nanos >= 30_000_000_000 ==> final(self).last_cleanup_time() == now,
            since_last_cleanup.nanos >= 30_000_000_000 ==> exists|ids: Seq<u64>|
                {
                    &&& ids.no_duplicates()
                    &&& forall|k: u64|
                        #[trigger] ids.contains(k) == (old(self)@.streams.contains_key(k)
                            && cleanup_removes(old(self)@, idle@, k))
                    &&& final(self)@ == purge(old(self)@, ids)
                },
    {
        if since_last_cleanup.nanos < 30_000_000_000 {
            return;
        }
        proof {
            lemma_views_dom(self.streams@);
        }
        let idle_timeout = self.idle_timeout;
        let keys = collect_keys(&self.streams);
        let mut to_remove: Vec<u64> = Vec::new();
        for i in 0..keys.len()
            invariant
                keys@.to_set() == self@.streams.dom(),
                keys@.no_duplicates(),
                idle_timeout == self@.idle_timeout,
                to_remove@.no_duplicates(),
                forall|k: u64|
                    #[trigger] to_remove@.contains(k) == (keys@.take(i as int).contains(k)
                        && cleanup_removes(self@, idle@, k)),
        {
            let stream_id = keys[i];
            proof {
                lemma_take_next(keys@, i as int);
                lemma_not_in_prefix(keys@, i as int);
                assert(keys@.to_set().contains(stream_id));
            }
            match self.streams.get(&stream_id) {
                Some(stream) => {
                    let listed = listed_idle(idle, stream_id, idle_timeout);
                    if stream.is_closed() || listed {
                        proof {
                            lemma_push_contains(to_remove@, stream_id);
                            lemma_push_no_duplicates(to_remove@, stream_id);
                        }
                        to_remove.push(stream_id);
                    }
                },
                None => {},
            }
        }
        proof {
            assert forall|k: u64| #[trigger] to_remove@.contains(k) == (self@.streams.contains_key(k)
                && cleanup_removes(self@, idle@, k)) by {
                assert(keys@.take(keys@.len() as int) =~= keys@);
                if self@.streams.contains_key(k) {
                    assert(keys@.to_set().contains(k));
                }
            }
        }
        self.remove_streams(&to_remove);
        self.last_cleanup = now;
    }

    /// Get stream statistics: counts by state, resets, and byte totals over all streams, with
    /// the connection windows and the stream limit.
    pub fn get_stream_stats(&self) -> (stats: StreamStats)
        requires
            totals_over(self@.streams, self@.streams.dom()).bytes_sent <= u64::MAX,
            totals_over(self@.streams, self@.streams.dom()).bytes_received <= u64::MAX,
        ensures
            stats == stats_of(self@),
            stats.total_streams == self@.streams.len(),
    {
        broadcast use vstd::set::fold::lemma_fold_empty;

        proof {
            lemma_views_dom(self.streams@);
            lemma_count_key_commutes(self@.streams);
        }
        let keys = collect_keys(&self.streams);
        let ghost m = self@.streams;
        let ghost f = count_key(m);
        let mut total: usize = 0;
        let mut open: usize = 0;
        let mut hcl: usize = 0;
        let mut hcr: usize = 0;
        let mut closed: usize = 0;
        let mut reset: usize = 0;
        let mut sent: u128 = 0;
        let mut received: u128 = 0;
        assert(keys@.take(0).to_set() =~= Set::empty());
        for i in 0..keys.len()
            invariant
                keys@.to_set() == m.dom(),
                keys@.no_duplicates(),
                keys@.len() == m.dom().len(),
                m == self@.streams,
                f == count_key(m),
                vstd::set::fold::is_fun_commutative(f),
                ({
                    let t = keys@.take(i as int).to_set().fold(no_totals(), f);
                    &&& total == t.total && open == t.open && hcl == t.half_closed_local
                    &&& hcr == t.half_closed_remote && closed == t.closed && reset == t.reset
                    &&& sent == t.bytes_sent && received == t.bytes_received
                    &&& t.total == i
                    &&& t.open <= i && t.half_closed_local <= i && t.half_closed_remote <= i
                    &&& t.closed <= i && t.reset <= i
                    &&& t.bytes_sent <= i * 0xffff_ffff_ffff_ffffnat
                    &&& t.bytes_received <= i * 0xffff_ffff_ffff_ffffnat
                }),
        {
            let k = keys[i];
            let ghost before = keys@.take(i as int).to_set();
            proof {
                lemma_take_next(keys@, i as int);
                lemma_not_in_prefix(keys@, i as int);
                vstd::seq_lib::seq_to_set_is_finite(keys@.take(i as int));
                vstd::set::fold::lemma_fold_insert(before, no_totals(), f, k);
            }
            assert(keys@.to_set().contains(k));
            let ghost t0 = before.fold(no_totals(), f);
            match self.streams.get(&k) {
                Some(stream) => {
                    assert(stream@ == m[k]);
                    total = total + 1;
                    match stream.state {
                        StreamStateType::Open => {
                            open = open + 1;
                        },
                        StreamStateType::HalfClosedLocal => {
                            hcl = hcl + 1;
                        },
                        StreamStateType::HalfClosedRemote => {
                            hcr = hcr + 1;
                        },
                        StreamStateType::Closed => {
                            closed = closed + 1;
                        },
                        _ => {},
                    }
                    if stream.reset {
                        reset = reset + 1;
                    }
                    assert((i + 1) * 0xffff_ffff_ffff_ffffnat == i * 0xffff_ffff_ffff_ffffnat
                        + 0xffff_ffff_ffff_ffffnat) by (nonlinear_arith);
                    assert(i * 0xffff_ffff_ffff_ffffnat + 0xffff_ffff_ffff_ffffnat
                        <= 0xffff_ffff_ffff_ffff_ffff_ffff_ffff_ffffnat) by (nonlinear_arith)
                        requires
                            i < 0xffff_ffff_ffff_ffffnat,
                    ;
                    sent = sent + stream.bytes_sent as u128;
                    received = received + stream.bytes_received as u128;
                },
                None => {},
            }
        }
        assert(keys@.take(keys.len() as int) =~= keys@);
        StreamStats {
            total_streams: total,
            open_streams: open,
            half_closed_local: hcl,
            half_closed_remote: hcr,
            closed_streams: closed,
            reset_streams: reset,
            total_bytes_sent: sent as u64,
            total_bytes_received: received as u64,
            connection_send_window: self.connection_send_window(),
            connection_recv_window: self.connection_recv_window(),
            max_concurrent_streams: self.max_concurrent_streams,
        }
    }

    /// Get the children recorded under a stream in the dependency tree.
    pub fn get_stream_children(&self, stream_id: u64) -> (children: Vec<u64>)
        ensures
            children@ == children_in(self@.dependency_tree, stream_id),
    {
        match self.dependency_tree.get(&stream_id) {
            Some(v) => filtered_copy(v),
            None => Vec::new(),
        }
    }
}

fn filtered_copy(v: &Vec<u64>) -> (r: Vec<u64>)
    ensures
        r@ == v@,
{
    let mut r: Vec<u64> = Vec::new();
    for i in 0..v.len()
        invariant
            r@ == v@.take(i as int),
    {
        r.push(v[i]);
        assert(r@ =~= v@.take(i + 1));
    }
    assert(r@ =~= v@);
    r
}


/// Identifiers of one side are given out 4 apart: after `create_stream` the next identifier
/// of that side is 4 above the one given out, and the new stream is there, open.
pub proof fn lemma_stream_ids_step_by_four(m: ManagerModel, t: StreamType)
    requires
        allocates(m, t),
        next_id_for(m, t) + 4 <= u64::MAX,
    ensures
        next_id_for(after_create(m, t), t) == next_id_for(m, t) + 4,
        after_create(m, t).streams.contains_key(next_id_for(m, t)),
        after_create(m, t).streams[next_id_for(m, t)].state == StreamStateType::Open,
{
}

/// `create_stream` never takes the manager past its stream limit.
pub proof fn lemma_create_respects_limit(m: ManagerModel, t: StreamType)
    requires
        allocates(m, t),
        m.streams.dom().finite(),
    ensures
        after_create(m, t).streams.len() <= (m.max_concurrent_streams as usize),
{
    let id = next_id_for(m, t);
    if m.streams.contains_key(id) {
        assert(m.streams.insert(id, opened_stream(id, m.config)).dom() =~= m.streams.dom());
    }
}

/// Changing the stream limit evicts no stream; afterwards `create_stream` refuses with
/// `LimitExceeded` exactly when the streams already number at least the new limit (as a
/// `usize`), and no peer stream is accepted then.
pub proof fn lemma_stream_limit_after_set(m: ManagerModel, max: u64, id: u64)
    ensures
        ({
            let m2 = ManagerModel { max_concurrent_streams: max, ..m };
            &&& m2.streams == m.streams
            &&& at_stream_limit(m2) <==> m.streams.len() >= (max as usize)
            &&& spec_can_accept(m2, id) ==> m.streams.len() < (max as usize)
        }),
{
}

/// A stream from the peer is accepted once: afterwards its identifier is refused.
pub proof fn lemma_accept_once(m: ManagerModel, id: u64)
    requires
        spec_can_accept(m, id),
    ensures
        !spec_can_accept(after_accept(m, id), id),
        after_accept(m, id).streams.contains_key(id),
{
}

/// A stream that is closed is gone after `cleanup_closed_streams`.
pub proof fn lemma_closed_stream_cleaned_up(streams: Map<u64, StreamView>, id: u64, v: StreamView)
    requires
        v.state == StreamStateType::Closed,
    ensures
        !unclosed(streams.insert(id, v)).contains_key(id),
{
}

/// After `remove_streams`, none of the removed streams has a state or flow control windows
/// left, and the other streams keep theirs.
pub proof fn lemma_removed_streams_are_gone(m: ManagerModel, ids: Seq<u64>)
    ensures
        forall|k: u64| #[trigger] ids.contains(k) ==> !purge(m, ids).streams.contains_key(k)
            && !purge(m, ids).flow.stream_send_windows.contains_key(k)
            && !purge(m, ids).flow.stream_recv_windows.contains_key(k),
        forall|k: u64|
            !ids.contains(k) && #[trigger] m.streams.contains_key(k) ==> purge(
                m,
                ids,
            ).streams.contains_key(k) && purge(m, ids).streams[k] == m.streams[k],
    decreases ids.len(),
{
    if ids.len() > 0 {
        let rest = ids.drop_last();
        lemma_removed_streams_are_gone(m, rest);
        lemma_push_contains(rest, ids.last());
        assert(rest.push(ids.last()) =~= ids);
    }
}

/// Whether entries `s` are in scheduling order: no entry goes before an earlier one.
pub open spec fn in_schedule_order(s: Seq<PriorityEntry>) -> bool {
    forall|i: int, j: int| 0 <= i < j < s.len() ==> !goes_before(#[trigger] s[j], #[trigger] s[i])
}

proof fn lemma_insert_entry_keeps_order(s: Seq<PriorityEntry>, e: PriorityEntry)
    requires
        in_schedule_order(s),
    ensures
        in_schedule_order(insert_entry(s, e)),
        insert_entry(s, e).to_multiset() == s.to_multiset().insert(e),
    decreases s.len(),
{
    broadcast use vstd::seq_lib::group_to_multiset_ensures;

    if s.len() == 0 {
        assert(seq![e] =~= Seq::<PriorityEntry>::empty().push(e));
    } else if goes_before(e, s.last()) {
        let d = s.drop_last();
        assert(in_schedule_order(d));
        lemma_insert_entry_keeps_order(d, e);
        let r = insert_entry(d, e);
        assert forall|x: PriorityEntry| #[trigger] r.contains(x) implies x == e || d.contains(x) by {
            assert(r.to_multiset().count(x) > 0);
        }
        assert forall|i: int, j: int| 0 <= i < j < r.push(s.last()).len() implies !goes_before(
            #[trigger] r.push(s.last())[j],
            #[trigger] r.push(s.last())[i],
        ) by {
            if j == r.len() {
                assert(r.contains(r[i]));
                if d.contains(r[i]) {
                    let k = choose|k: int| 0 <= k < d.len() && d[k] == r[i];
                    assert(s[k] == d[k]);
                    assert(!goes_before(s[s.len() - 1], s[k]));
                }
            }
        }
        assert(s =~= d.push(s.last()));
    } else {
        assert forall|i: int, j: int| 0 <= i < j < s.push(e).len() implies !goes_before(
            #[trigger] s.push(e)[j],
            #[trigger] s.push(e)[i],
        ) by {
            if j == s.len() {
                assert(!goes_before(s[s.len() - 1], s[i]) || i == s.len() - 1);
            }
        }
    }
}

proof fn lemma_without_lacks(s: Seq<u64>, x: u64)
    ensures
        !without(s, x).contains(x),
    decreases s.len(),
{
    if s.len() > 0 {
        lemma_without_lacks(s.drop_last(), x);
        let r = without(s.drop_last(), x);
        if s.last() != x {
            lemma_push_contains(r, s.last());
        }
    }
}

/// After a priority update a stream has at most one parent: it is in no list of children but
/// that of the parent it now depends on, where it stands once, at the end, after that parent's
/// other children in their order; every other list keeps its children but the stream, in order.
pub proof fn lemma_reprioritized_stream_has_one_parent(
    tree: Map<u64, Seq<u64>>,
    x: u64,
    dep: Option<u64>,
    q: u64,
)
    ensures
        ({
            let t2 = tree_with_child(tree_without(tree, x), dep, x);
            &&& dep == Some(q) ==> children_in(t2, q) == without(children_in(tree, q), x).push(x)
                && !without(children_in(tree, q), x).contains(x)
            &&& dep != Some(q) ==> children_in(t2, q) == without(children_in(tree, q), x)
                && !children_in(t2, q).contains(x)
        }),
{
    lemma_without_lacks(children_in(tree, q), x);
    if !tree.contains_key(q) {
        assert(without(Seq::<u64>::empty(), x) =~= Seq::<u64>::empty());
    }
}

/// Whether a stream needs a window update: its receive window is below half its initial window.
pub open spec fn needs_window_update_spec(s: StreamView) -> bool {
    s.recv_window < s.initial_window_size / 2
}

/// The window update a stream needs: its identifier and the increment back to its initial
/// window.
pub open spec fn window_update_pair(s: StreamView) -> (u64, u32) {
    (s.id, (s.initial_window_size - s.recv_window) as u32)
}

proof fn lemma_filter_keeps_no_duplicates(ks: Seq<u64>, p: spec_fn(u64) -> bool)
    requires
        ks.no_duplicates(),
    ensures
        ks.filter(p).no_duplicates(),
        forall|k: u64| #[trigger] ks.filter(p).contains(k) ==> ks.contains(k),
    decreases ks.len(),
{
    reveal(Seq::filter);
    if ks.len() > 0 {
        let init = ks.drop_last();
        assert(init.no_duplicates()) by {
            assert forall|i: int, j: int| 0 <= i < j < init.len() implies init[i] != init[j] by {
                assert(init[i] == ks[i] && init[j] == ks[j]);
            }
        }
        lemma_filter_keeps_no_duplicates(init, p);
        assert(ks =~= init.push(ks.last()));
        lemma_push_contains(init, ks.last());
        assert(!init.contains(ks.last())) by {
            if init.contains(ks.last()) {
                let j = choose|j: int| 0 <= j < init.len() && init[j] == ks.last();
                assert(ks[j] == ks[ks.len() - 1]);
            }
        }
        assert(ks.drop_last() == init);
        assert(ks.filter(p) == if p(ks.last()) {
            init.filter(p).push(ks.last())
        } else {
            init.filter(p)
        });
        if p(ks.last()) {
            lemma_push_contains(init.filter(p), ks.last());
            lemma_push_no_duplicates(init.filter(p), ks.last());
        }
        assert forall|k: u64| #[trigger] ks.filter(p).contains(k) implies ks.contains(k) by {
            if init.filter(p).contains(k) {
                assert(init.contains(k));
            }
        }
    } else {
        assert(ks.filter(p) =~= ks);
    }
}

/// The window updates over a listing of streams are the listed streams that need one, in the
/// listing's order, each with its update; over a listing of each stream once (as
/// `get_streams_needing_window_updates` uses), each stream that needs an update is listed once.
pub proof fn lemma_window_updates_are_the_needing_streams(
    streams: Map<u64, StreamView>,
    ks: Seq<u64>,
)
    ensures
        window_updates_over(streams, ks) == ks.filter(
            |k: u64| needs_window_update_spec(streams[k]),
        ).map_values(|k: u64| window_update_pair(streams[k])),
        ks.no_duplicates() ==> ks.filter(|k: u64| needs_window_update_spec(streams[k])).no_duplicates(),
    decreases ks.len(),
{
    reveal(Seq::filter);
    let p = |k: u64| needs_window_update_spec(streams[k]);
    let f = |k: u64| window_update_pair(streams[k]);
    if ks.len() > 0 {
        lemma_window_updates_are_the_needing_streams(streams, ks.drop_last());
        let sub = ks.drop_last().filter(p);
        assert(ks.filter(p) == if p(ks.last()) {
            sub.push(ks.last())
        } else {
            sub
        });
        if p(ks.last()) {
            assert(sub.push(ks.last()).map_values(f) =~= sub.map_values(f).push(f(ks.last())));
        }
    } else {
        assert(ks.filter(p).map_values(f) =~= Seq::<(u64, u32)>::empty());
    }
    if ks.no_duplicates() {
        lemma_filter_keeps_no_duplicates(ks, p);
    }
}

/// Whether the flow controller's receive window of stream `k` is at most half the initial
/// window.
pub open spec fn needs_flow_update(m: ManagerModel, k: u64) -> bool {
    model_recv_window(m.flow, k) <= m.config.initial_window_size / 2
}

/// The flow control update for stream `k`: the increment back to the initial window.
pub open spec fn flow_update_pair(m: ManagerModel, k: u64) -> (u64, u32) {
    (k, (m.config.initial_window_size - model_recv_window(m.flow, k)) as u32)
}

/// The flow control updates over a listing of streams are the listed streams whose receive
/// window is at most half the initial window, in the listing's order, each with its increment;
/// over a listing of each stream once, each such stream is listed once.
pub proof fn lemma_flow_updates_are_the_needing_streams(m: ManagerModel, ks: Seq<u64>)
    ensures
        flow_updates_over(m, ks) == ks.filter(|k: u64| needs_flow_update(m, k)).map_values(
            |k: u64| flow_update_pair(m, k),
        ),
        ks.no_duplicates() ==> ks.filter(|k: u64| needs_flow_update(m, k)).no_duplicates(),
    decreases ks.len(),
{
    reveal(Seq::filter);
    let p = |k: u64| needs_flow_update(m, k);
    let f = |k: u64| flow_update_pair(m, k);
    if ks.len() > 0 {
        lemma_flow_updates_are_the_needing_streams(m, ks.drop_last());
        let sub = ks.drop_last().filter(p);
        assert(ks.filter(p) == if p(ks.last()) {
            sub.push(ks.last())
        } else {
            sub
        });
        if p(ks.last()) {
            assert(sub.push(ks.last()).map_values(f) =~= sub.map_values(f).push(f(ks.last())));
        }
    } else {
        assert(ks.filter(p).map_values(f) =~= Seq::<(u64, u32)>::empty());
    }
    if ks.no_duplicates() {
        lemma_filter_keeps_no_duplicates(ks, p);
    }
}

/// Scheduling order is a sorted rearrangement of the queue: the same entries, the more
/// urgent priority first and, within a priority, the larger weight first.
pub proof fn lemma_schedule_order_sorted(q: Seq<PriorityEntry>)
    ensures
        in_schedule_order(schedule_order(q)),
        schedule_order(q).to_multiset() == q.to_multiset(),
    decreases q.len(),
{
    broadcast use vstd::seq_lib::group_to_multiset_ensures;

    if q.len() > 0 {
        lemma_schedule_order_sorted(q.drop_last());
        lemma_insert_entry_keeps_order(schedule_order(q.drop_last()), q.last());
        assert(q =~= q.drop_last().push(q.last()));
    }
}

} // verus!
