//! Flow control implementation for HTTP/3.
//!
//! Stream-level and connection-level send and receive windows.

use vstd::prelude::*;
use std::collections::HashMap;
use crate::error::{H3Error, H3Result, StreamError};
use crate::protocol::maps::{collect_keys, window_in, window_of};
use crate::text::{decimal, text_with_number, window_data_text, window_overflow_text};

verus! {

broadcast use vstd::std_specs::hash::group_hash_axioms;

/// Smallest allowed initial window size.
pub const MIN_WINDOW_SIZE: u32 = 1024;

/// Largest allowed window size (2^31 - 1).
pub const MAX_WINDOW_SIZE: u32 = 0x7fff_ffff;

/// Default window size.
pub const DEFAULT_WINDOW_SIZE: u32 = 65536;

/// Number of low bits of `x` that single precision cannot hold: 0 below 2^24, then one more for
/// each doubling.
pub open spec fn f32_dropped_bits(x: u32) -> nat {
    if x < 0x100_0000 {
        0
    } else if x < 0x200_0000 {
        1
    } else if x < 0x400_0000 {
        2
    } else if x < 0x800_0000 {
        3
    } else if x < 0x1000_0000 {
        4
    } else if x < 0x2000_0000 {
        5
    } else if x < 0x4000_0000 {
        6
    } else if x < 0x8000_0000 {
        7
    } else {
        8
    }
}

/// 2 to the power `k`, for `k` up to 8.
pub open spec fn pow2_upto8(k: nat) -> nat {
    if k == 0 {
        1
    } else if k == 1 {
        2
    } else if k == 2 {
        4
    } else if k == 3 {
        8
    } else if k == 4 {
        16
    } else if k == 5 {
        32
    } else if k == 6 {
        64
    } else if k == 7 {
        128
    } else {
        256
    }
}

/// `x` converted to single precision (round to nearest, ties to even), as an integer.
pub open spec fn f32_rounded(x: u32) -> nat {
    let k = f32_dropped_bits(x);
    let p = pow2_upto8(k);
    let q = x as nat / p;
    let r = x as nat % p;
    if k == 0 {
        x as nat
    } else if r * 2 > p || (r * 2 == p && q % 2 == 1) {
        (q + 1) * p
    } else {
        q * p
    }
}

/// The receive window at or below which a window update is due: half the initial window, that
/// is the value of `(initial as f32 * 0.5) as u32`.
pub open spec fn update_threshold(initial: u32) -> nat {
    f32_rounded(initial) / 2
}

/// The threshold is never above the initial window.
pub proof fn lemma_threshold_at_most_initial(x: u32)
    ensures
        update_threshold(x) <= x,
{
    let k = f32_dropped_bits(x);
    let p = pow2_upto8(k);
    let q = x as nat / p;
    assert(q * p <= x && x < (q + 1) * p) by (nonlinear_arith)
        requires p > 0, q == x as nat / p;
    if k > 0 {
        assert(p <= 256);
        assert((q + 1) * p == q * p + p) by (nonlinear_arith);
    }
}

/// Whether a receive window of `current` needs an update for a stream or connection whose
/// initial window is `initial`.
pub open spec fn spec_needs_window_update(current: u32, initial: u32) -> bool {
    current <= update_threshold(initial)
}

/// Window update information.
#[derive(Debug, Clone, Copy, PartialEq, Eq, Structural)]
pub struct WindowUpdate {
    /// Stream ID (0 for connection-level)
    pub stream_id: u64,
    /// Window increment
    pub increment: u32,
}

/// Flow control event.
#[derive(Debug, Clone, Copy, PartialEq, Eq, Structural)]
pub enum FlowControlEvent {
    /// Window update needed
    WindowUpdateNeeded { stream_id: u64, increment: u32 },
    /// Flow control blocked
    FlowControlBlocked { stream_id: u64, available_window: u32, requested_bytes: u32 },
    /// Window exhausted
    WindowExhausted { stream_id: u64 },
}

/// Flow control statistics.
#[derive(Debug, Clone, Copy, PartialEq, Eq, Structural)]
pub struct FlowControlStats {
    /// Connection send window
    pub connection_send_window: u32,
    /// Connection receive window
    pub connection_recv_window: u32,
    /// Total bytes sent
    pub total_bytes_sent: u64,
    /// Total bytes received
    pub total_bytes_received: u64,
    /// Number of active streams
    pub active_streams: usize,
    /// Number of pending window updates
    pub pending_updates: usize,
}

/// The state of a flow controller.
pub struct FlowModel {
    pub connection_send_window: u32,
    pub connection_recv_window: u32,
    pub initial_connection_window: u32,
    pub stream_send_windows: Map<u64, u32>,
    pub stream_recv_windows: Map<u64, u32>,
    pub initial_stream_window: u32,
    pub total_bytes_sent: u64,
    pub total_bytes_received: u64,
    pub pending_updates: Seq<WindowUpdate>,
}

/// Flow controller for managing flow control windows.
#[derive(Debug)]
pub struct FlowController {
    connection_send_window: u32,
    connection_recv_window: u32,
    initial_connection_window: u32,
    stream_send_windows: HashMap<u64, u32>,
    stream_recv_windows: HashMap<u64, u32>,
    initial_stream_window: u32,
    total_bytes_sent: u64,
    total_bytes_received: u64,
    pending_updates: Vec<WindowUpdate>,
}

impl View for FlowController {
    type V = FlowModel;

    closed spec fn view(&self) -> FlowModel {
        FlowModel {
            connection_send_window: self.connection_send_window,
            connection_recv_window: self.connection_recv_window,
            initial_connection_window: self.initial_connection_window,
            stream_send_windows: self.stream_send_windows@,
            stream_recv_windows: self.stream_recv_windows@,
            initial_stream_window: self.initial_stream_window,
            total_bytes_sent: self.total_bytes_sent,
            total_bytes_received: self.total_bytes_received,
            pending_updates: self.pending_updates@,
        }
    }
}

/// A new controller: both connection windows at `conn`, no streams, nothing counted.
pub open spec fn fresh_flow(conn: u32, stream: u32) -> FlowModel {
    FlowModel {
        connection_send_window: conn,
        connection_recv_window: conn,
        initial_connection_window: conn,
        stream_send_windows: Map::empty(),
        stream_recv_windows: Map::empty(),
        initial_stream_window: stream,
        total_bytes_sent: 0,
        total_bytes_received: 0,
        pending_updates: Seq::empty(),
    }
}

/// `m` with both windows of `stream_id` set to the initial stream window.
pub open spec fn stream_added(m: FlowModel, stream_id: u64) -> FlowModel {
    FlowModel {
        stream_send_windows: m.stream_send_windows.insert(stream_id, m.initial_stream_window),
        stream_recv_windows: m.stream_recv_windows.insert(stream_id, m.initial_stream_window),
        ..m
    }
}

/// `m` without the windows of `stream_id`.
pub open spec fn stream_removed(m: FlowModel, stream_id: u64) -> FlowModel {
    FlowModel {
        stream_send_windows: m.stream_send_windows.remove(stream_id),
        stream_recv_windows: m.stream_recv_windows.remove(stream_id),
        ..m
    }
}

/// The statistics of a controller.
pub open spec fn flow_stats(m: FlowModel) -> FlowControlStats {
    FlowControlStats {
        connection_send_window: m.connection_send_window,
        connection_recv_window: m.connection_recv_window,
        total_bytes_sent: m.total_bytes_sent,
        total_bytes_received: m.total_bytes_received,
        active_streams: m.stream_send_windows.dom().len() as usize,
        pending_updates: m.pending_updates.len() as usize,
    }
}

/// Whether `e` is a stream `InvalidState` error with these texts.
pub open spec fn is_invalid_state(e: H3Error, expected: Seq<char>, actual: Seq<char>) -> bool {
    e matches H3Error::Stream(StreamError::InvalidState { expected: x, actual: y }) && x@ == expected
        && y@ == actual
}

/// The send window of a stream (the connection's for stream 0), 0 for an unknown stream.
pub open spec fn model_send_window(m: FlowModel, stream_id: u64) -> u32 {
    if stream_id == 0 {
        m.connection_send_window
    } else {
        window_in(m.stream_send_windows, stream_id)
    }
}

/// The receive window of a stream (the connection's for stream 0), 0 for an unknown stream.
pub open spec fn model_recv_window(m: FlowModel, stream_id: u64) -> u32 {
    if stream_id == 0 {
        m.connection_recv_window
    } else {
        window_in(m.stream_recv_windows, stream_id)
    }
}

/// The most that can be sent on a stream: the smaller of its window and the connection's.
pub open spec fn model_effective_send_window(m: FlowModel, stream_id: u64) -> u32 {
    if stream_id == 0 {
        m.connection_send_window
    } else {
        let w = window_in(m.stream_send_windows, stream_id);
        if m.connection_send_window <= w {
            m.connection_send_window
        } else {
            w
        }
    }
}

/// Whether `bytes` may be sent on a stream: the connection window and (for a stream other than
/// 0) the stream's own window, which must exist, both hold them.
pub open spec fn model_can_send(m: FlowModel, stream_id: u64, bytes: u32) -> bool {
    &&& m.connection_send_window >= bytes
    &&& stream_id != 0 ==> m.stream_send_windows.contains_key(stream_id)
        && m.stream_send_windows[stream_id] >= bytes
}

/// Whether a reservation of `bytes` goes through: neither the connection's window nor (for a
/// stream) the stream's window is smaller.
pub open spec fn reserve_goes_through(m: FlowModel, stream_id: u64, bytes: u32) -> bool {
    m.connection_send_window >= bytes && !(stream_id != 0 && window_in(
        m.stream_send_windows,
        stream_id,
    ) < bytes)
}

/// The effect of reserving `bytes` of send window: the new state and the events.
pub open spec fn spec_reserve(m: FlowModel, stream_id: u64, bytes: u32) -> (FlowModel, Seq<FlowControlEvent>) {
    if m.connection_send_window < bytes {
        (
            m,
            seq![
                FlowControlEvent::FlowControlBlocked {
                    stream_id: 0,
                    available_window: m.connection_send_window,
                    requested_bytes: bytes,
                },
            ],
        )
    } else {
        let w = window_in(m.stream_send_windows, stream_id);
        if stream_id != 0 && w < bytes {
            (
                m,
                seq![
                    FlowControlEvent::FlowControlBlocked {
                        stream_id,
                        available_window: w,
                        requested_bytes: bytes,
                    },
                ],
            )
        } else {
            let stream_events = if stream_id != 0 && w == bytes {
                seq![FlowControlEvent::WindowExhausted { stream_id }]
            } else {
                Seq::empty()
            };
            let conn = (m.connection_send_window - bytes) as u32;
            let conn_events = if conn == 0 {
                seq![FlowControlEvent::WindowExhausted { stream_id: 0 }]
            } else {
                Seq::empty()
            };
            (
                FlowModel {
                    connection_send_window: conn,
                    stream_send_windows: if stream_id != 0 {
                        m.stream_send_windows.insert(stream_id, (w - bytes) as u32)
                    } else {
                        m.stream_send_windows
                    },
                    total_bytes_sent: (m.total_bytes_sent + bytes) as u64,
                    ..m
                },
                stream_events + conn_events,
            )
        }
    }
}

/// The window update event for a receive window `current`, if one is due.
pub open spec fn update_event(stream_id: u64, current: u32, initial: u32) -> Seq<FlowControlEvent> {
    if spec_needs_window_update(current, initial) {
        seq![
            FlowControlEvent::WindowUpdateNeeded {
                stream_id,
                increment: (initial - current) as u32,
            },
        ]
    } else {
        Seq::empty()
    }
}

/// The state after a send window update, or `None` when the window would exceed
/// `MAX_WINDOW_SIZE`.
pub open spec fn spec_update_send(m: FlowModel, stream_id: u64, increment: u32) -> Option<FlowModel> {
    let w = model_send_window(m, stream_id);
    if w + increment > MAX_WINDOW_SIZE {
        None
    } else if stream_id == 0 {
        Some(FlowModel { connection_send_window: (w + increment) as u32, ..m })
    } else {
        Some(
            FlowModel {
                stream_send_windows: m.stream_send_windows.insert(stream_id, (w + increment) as u32),
                ..m
            },
        )
    }
}

/// The state after a receive window update, or `None` when the window would exceed
/// `MAX_WINDOW_SIZE`.
pub open spec fn spec_update_recv(m: FlowModel, stream_id: u64, increment: u32) -> Option<FlowModel> {
    let w = model_recv_window(m, stream_id);
    if w + increment > MAX_WINDOW_SIZE {
        None
    } else if stream_id == 0 {
        Some(FlowModel { connection_recv_window: (w + increment) as u32, ..m })
    } else {
        Some(
            FlowModel {
                stream_recv_windows: m.stream_recv_windows.insert(stream_id, (w + increment) as u32),
                ..m
            },
        )
    }
}

/// The outcome of receiving `bytes` on a stream: `m2` is the state after, `res` the result.
/// The connection window is charged first; when the stream's own window is then too small the
/// error comes with the connection already charged.
pub open spec fn receive_result(
    m0: FlowModel,
    m2: FlowModel,
    stream_id: u64,
    bytes: u32,
    res: H3Result<Vec<FlowControlEvent>>,
) -> bool {
    let m = m0;
    let conn = (m.connection_recv_window - bytes) as u32;
    let charged = FlowModel {
        connection_recv_window: conn,
        total_bytes_received: (m.total_bytes_received + bytes) as u64,
        ..m
    };
    let w = window_in(m.stream_recv_windows, stream_id);
    if m.connection_recv_window < bytes {
        &&& m2 == m
        &&& res matches Err(e) && is_invalid_state(
            e,
            "sufficient connection receive window"@,
            "window: "@ + decimal(m.connection_recv_window as nat) + ", data: "@
                + decimal(bytes as nat),
        )
    } else if stream_id != 0 && w < bytes {
        &&& m2 == charged
        &&& res matches Err(e) && is_invalid_state(
            e,
            "sufficient stream receive window"@,
            "window: "@ + decimal(w as nat) + ", data: "@ + decimal(bytes as nat),
        )
    } else {
        let nw = (w - bytes) as u32;
        &&& m2 == (FlowModel {
            stream_recv_windows: if stream_id != 0 {
                m.stream_recv_windows.insert(stream_id, nw)
            } else {
                m.stream_recv_windows
            },
            ..charged
        })
        &&& res matches Ok(events) && events@ == (if stream_id != 0 {
            update_event(stream_id, nw, m.initial_stream_window)
        } else {
            Seq::empty()
        }) + update_event(0, conn, m.initial_connection_window)
    }
}

/// The outcome of a send window update: `m2` is the state after, `res` the result. An
/// increment that would take the window above `MAX_WINDOW_SIZE` is refused and changes nothing.
pub open spec fn update_send_result(
    m0: FlowModel,
    m2: FlowModel,
    stream_id: u64,
    increment: u32,
    res: H3Result<()>,
) -> bool {
    match spec_update_send(m0, stream_id, increment) {
        Some(m) => res is Ok && m2 == m,
        None => m2 == m0 && (res matches Err(e) && is_invalid_state(
            e,
            "valid window size"@,
            "window overflow: "@ + decimal(model_send_window(m0, stream_id) as nat) + " + "@ + decimal(
                increment as nat,
            ),
        )),
    }
}

/// The outcome of a recv window update: `m2` is the state after, `res` the result. An
/// increment that would take the window above `MAX_WINDOW_SIZE` is refused and changes nothing.
pub open spec fn update_recv_result(
    m0: FlowModel,
    m2: FlowModel,
    stream_id: u64,
    increment: u32,
    res: H3Result<()>,
) -> bool {
    match spec_update_recv(m0, stream_id, increment) {
        Some(m) => res is Ok && m2 == m,
        None => m2 == m0 && (res matches Err(e) && is_invalid_state(
            e,
            "valid window size"@,
            "window overflow: "@ + decimal(model_recv_window(m0, stream_id) as nat) + " + "@ + decimal(
                increment as nat,
            ),
        )),
    }
}

/// A window `w` moved by `diff`, floored at 0, cut to 32 bits and capped at `MAX_WINDOW_SIZE`.
pub open spec fn adjusted_window(w: u32, diff: int) -> u32 {
    let v = if w + diff < 0 { 0int } else { w + diff };
    let t = v as u32;
    if t <= MAX_WINDOW_SIZE { t } else { MAX_WINDOW_SIZE }
}

/// Every window in `m` moved by `diff`.
pub open spec fn adjusted_windows(m: Map<u64, u32>, diff: int) -> Map<u64, u32> {
    Map::new(|k: u64| m.contains_key(k), |k: u64| adjusted_window(m[k], diff))
}

/// The text of the error for an initial window size outside the allowed range.
pub open spec fn window_range_text() -> Seq<char> {
    "window size between "@ + decimal(MIN_WINDOW_SIZE as nat) + " and "@ + decimal(
        MAX_WINDOW_SIZE as nat,
    )
}

fn window_range_error(size: u32) -> (e: H3Error)
    ensures
        is_invalid_state(e, window_range_text(), decimal(size as nat)),
{
    let mut expected = text_with_number("window size between ", MIN_WINDOW_SIZE as u64);
    crate::text::push_str(&mut expected, " and ");
    crate::text::push_decimal(&mut expected, MAX_WINDOW_SIZE as u64);
    let mut actual = String::new();
    crate::text::push_decimal(&mut actual, size as u64);
    assert(actual@ =~= decimal(size as nat));
    H3Error::Stream(StreamError::InvalidState { expected, actual })
}

fn clamp_window(w: u32, diff: i64) -> (r: u32)
    requires
        -0x1_0000_0000 <= diff <= 0x1_0000_0000,
    ensures
        r == adjusted_window(w, diff as int),
{
    let sum: i64 = w as i64 + diff;
    let v: i64 = if sum < 0 { 0 } else { sum };
    let t: u32 = v as u32;
    if t <= MAX_WINDOW_SIZE { t } else { MAX_WINDOW_SIZE }
}

/// Check if a window update is needed.
fn needs_window_update(current_window: u32, initial_window: u32) -> (b: bool)
    ensures
        b == spec_needs_window_update(current_window, initial_window),
{
    current_window as u64 <= window_threshold(initial_window)
}

/// `(initial as f32 * 0.5) as u32`, computed on integers.
fn window_threshold(initial: u32) -> (t: u64)
    ensures
        t == update_threshold(initial),
{
    let x = initial as u64;
    let p: u64 = if x < 0x100_0000 {
        1
    } else if x < 0x200_0000 {
        2
    } else if x < 0x400_0000 {
        4
    } else if x < 0x800_0000 {
        8
    } else if x < 0x1000_0000 {
        16
    } else if x < 0x2000_0000 {
        32
    } else if x < 0x4000_0000 {
        64
    } else if x < 0x8000_0000 {
        128
    } else {
        256
    };
    assert(p == pow2_upto8(f32_dropped_bits(initial)));
    if p == 1 {
        return x / 2;
    }
    let q = x / p;
    let r = x % p;
    assert(q * p <= x && (q + 1) * p == q * p + p) by (nonlinear_arith)
        requires p > 0, q == x / p;
    let rounded: u64 = if r * 2 > p || (r * 2 == p && q % 2 == 1) {
        (q + 1) * p
    } else {
        q * p
    };
    rounded / 2
}

impl FlowController {
    /// Create a new flow controller.
    pub fn new(initial_connection_window: u32, initial_stream_window: u32) -> (c: Self)
        ensures
            c@ == fresh_flow(initial_connection_window, initial_stream_window),
    {
        FlowController {
            connection_send_window: initial_connection_window,
            connection_recv_window: initial_connection_window,
            initial_connection_window,
            stream_send_windows: HashMap::new(),
            stream_recv_windows: HashMap::new(),
            initial_stream_window,
            total_bytes_sent: 0,
            total_bytes_received: 0,
            pending_updates: Vec::new(),
        }
    }

    /// Initialize flow control for a new stream: both of its windows start at the initial
    /// stream window. Stream 0 is the connection and is refused.
    pub fn initialize_stream(&mut self, stream_id: u64) -> (res: H3Result<()>)
        ensures
            stream_id == 0 ==> final(self)@ == old(self)@ && (res matches Err(e) && is_invalid_state(
                e,
                "non-zero stream ID"@,
                "stream ID 0"@,
            )),
            stream_id != 0 ==> res is Ok && final(self)@ == stream_added(old(self)@, stream_id),
    {
        if stream_id == 0 {
            return Err(
                H3Error::Stream(
                    StreamError::InvalidState {
                        expected: "non-zero stream ID".to_owned(),
                        actual: "stream ID 0".to_owned(),
                    },
                ),
            );
        }
        self.stream_send_windows.insert(stream_id, self.initial_stream_window);
        self.stream_recv_windows.insert(stream_id, self.initial_stream_window);
        Ok(())
    }

    /// Remove flow control state for a stream.
    pub fn remove_stream(&mut self, stream_id: u64)
        ensures
            final(self)@ == stream_removed(old(self)@, stream_id),
    {
        self.stream_send_windows.remove(&stream_id);
        self.stream_recv_windows.remove(&stream_id);
    }

    /// Check if we can send data on a stream.
    pub fn can_send(&self, stream_id: u64, bytes: u32) -> (b: bool)
        ensures
            b == model_can_send(self@, stream_id, bytes),
    {
        if self.connection_send_window < bytes {
            return false;
        }
        if stream_id != 0 {
            match self.stream_send_windows.get(&stream_id) {
                Some(w) => {
                    if *w < bytes {
                        return false;
                    }
                },
                None => {
                    return false;
                },
            }
        }
        true
    }

    /// Reserve flow control window for sending data. When a window is too small, nothing
    /// changes and the event says which window blocked.
    pub fn reserve_send_window(&mut self, stream_id: u64, bytes: u32) -> (res: H3Result<
        Vec<FlowControlEvent>,
    >)
        requires
            reserve_goes_through(old(self)@, stream_id, bytes) ==> old(self)@.total_bytes_sent
                + bytes <= u64::MAX,
        ensures
            res matches Ok(events) && events@ == spec_reserve(old(self)@, stream_id, bytes).1,
            final(self)@ == spec_reserve(old(self)@, stream_id, bytes).0,
    {
        let mut events: Vec<FlowControlEvent> = Vec::new();
        if self.connection_send_window < bytes {
            events.push(
                FlowControlEvent::FlowControlBlocked {
                    stream_id: 0,
                    available_window: self.connection_send_window,
                    requested_bytes: bytes,
                },
            );
            assert(events@ =~= spec_reserve(old(self)@, stream_id, bytes).1);
            return Ok(events);
        }
        if stream_id != 0 {
            let stream_window = window_of(&self.stream_send_windows, stream_id);
            if stream_window < bytes {
                events.push(
                    FlowControlEvent::FlowControlBlocked {
                        stream_id,
                        available_window: stream_window,
                        requested_bytes: bytes,
                    },
                );
                assert(events@ =~= spec_reserve(old(self)@, stream_id, bytes).1);
                return Ok(events);
            }
            self.stream_send_windows.insert(stream_id, stream_window - bytes);
            if stream_window - bytes == 0 {
                events.push(FlowControlEvent::WindowExhausted { stream_id });
            }
        }
        self.connection_send_window = self.connection_send_window - bytes;
        self.total_bytes_sent = self.total_bytes_sent + bytes as u64;
        if self.connection_send_window == 0 {
            events.push(FlowControlEvent::WindowExhausted { stream_id: 0 });
        }
        assert(events@ =~= spec_reserve(old(self)@, stream_id, bytes).1);
        Ok(events)
    }

    /// Process received data and update receive windows. The connection window is charged
    /// first; when the stream's own window is then too small the error comes with the
    /// connection already charged.
    pub fn process_received_data(&mut self, stream_id: u64, bytes: u32) -> (res: H3Result<
        Vec<FlowControlEvent>,
    >)
        requires
            old(self)@.total_bytes_received + bytes <= u64::MAX,
        ensures
            receive_result(old(self)@, final(self)@, stream_id, bytes, res),
    {
        let mut events: Vec<FlowControlEvent> = Vec::new();
        if self.connection_recv_window < bytes {
            let actual = window_data_text(self.connection_recv_window as u64, bytes as u64);
            return Err(
                H3Error::Stream(
                    StreamError::InvalidState {
                        expected: "sufficient connection receive window".to_owned(),
                        actual,
                    },
                ),
            );
        }
        self.connection_recv_window = self.connection_recv_window - bytes;
        self.total_bytes_received = self.total_bytes_received + bytes as u64;
        let ghost after_conn = events@;
        if stream_id != 0 {
            let stream_window = window_of(&self.stream_recv_windows, stream_id);
            if stream_window < bytes {
                let actual = window_data_text(stream_window as u64, bytes as u64);
                return Err(
                    H3Error::Stream(
                        StreamError::InvalidState {
                            expected: "sufficient stream receive window".to_owned(),
                            actual,
                        },
                    ),
                );
            }
            let new_stream_window = stream_window - bytes;
            self.stream_recv_windows.insert(stream_id, new_stream_window);
            if needs_window_update(new_stream_window, self.initial_stream_window) {
                proof {
                    lemma_threshold_at_most_initial(self.initial_stream_window);
                }
                let increment = self.initial_stream_window - new_stream_window;
                events.push(FlowControlEvent::WindowUpdateNeeded { stream_id, increment });
            }
        }
        let ghost stream_part = events@;
        if needs_window_update(self.connection_recv_window, self.initial_connection_window) {
            proof {
                lemma_threshold_at_most_initial(self.initial_connection_window);
            }
            let increment = self.initial_connection_window - self.connection_recv_window;
            events.push(FlowControlEvent::WindowUpdateNeeded { stream_id: 0, increment });
        }
        assert(events@ =~= stream_part + update_event(
            0,
            self.connection_recv_window,
            self.initial_connection_window,
        ));
        Ok(events)
    }

    /// Update send window with a window update frame. An increment that would take the window
    /// above `MAX_WINDOW_SIZE` is refused and changes nothing.
    pub fn update_send_window(&mut self, stream_id: u64, increment: u32) -> (res: H3Result<()>)
        ensures
            update_send_result(old(self)@, final(self)@, stream_id, increment, res),
    {
        if stream_id == 0 {
            let new_window = self.connection_send_window as u64 + increment as u64;
            if new_window > MAX_WINDOW_SIZE as u64 {
                return Err(
                    H3Error::Stream(
                        StreamError::InvalidState {
                            expected: "valid window size".to_owned(),
                            actual: window_overflow_text(
                                self.connection_send_window as u64,
                                increment as u64,
                            ),
                        },
                    ),
                );
            }
            self.connection_send_window = new_window as u32;
        } else {
            let current_window = window_of(&self.stream_send_windows, stream_id);
            let new_window = current_window as u64 + increment as u64;
            if new_window > MAX_WINDOW_SIZE as u64 {
                return Err(
                    H3Error::Stream(
                        StreamError::InvalidState {
                            expected: "valid window size".to_owned(),
                            actual: window_overflow_text(current_window as u64, increment as u64),
                        },
                    ),
                );
            }
            self.stream_send_windows.insert(stream_id, new_window as u32);
        }
        Ok(())
    }

    /// Update receive window (typically after sending a window update frame). An increment
    /// that would take the window above `MAX_WINDOW_SIZE` is refused and changes nothing.
    pub fn update_recv_window(&mut self, stream_id: u64, increment: u32) -> (res: H3Result<()>)
        ensures
            update_recv_result(old(self)@, final(self)@, stream_id, increment, res),
    {
        if stream_id == 0 {
            let new_window = self.connection_recv_window as u64 + increment as u64;
            if new_window > MAX_WINDOW_SIZE as u64 {
                return Err(
                    H3Error::Stream(
                        StreamError::InvalidState {
                            expected: "valid window size".to_owned(),
                            actual: window_overflow_text(
                                self.connection_recv_window as u64,
                                increment as u64,
                            ),
                        },
                    ),
                );
            }
            self.connection_recv_window = new_window as u32;
        } else {
            let current_window = window_of(&self.stream_recv_windows, stream_id);
            let new_window = current_window as u64 + increment as u64;
            if new_window > MAX_WINDOW_SIZE as u64 {
                return Err(
                    H3Error::Stream(
                        StreamError::InvalidState {
                            expected: "valid window size".to_owned(),
                            actual: window_overflow_text(current_window as u64, increment as u64),
                        },
                    ),
                );
            }
            self.stream_recv_windows.insert(stream_id, new_window as u32);
        }
        Ok(())
    }

    /// Get current send window for a stream (0 is the connection; 0 for an unknown stream).
    pub fn send_window(&self, stream_id: u64) -> (w: u32)
        ensures
            w == model_send_window(self@, stream_id),
    {
        if stream_id == 0 {
            self.connection_send_window
        } else {
            window_of(&self.stream_send_windows, stream_id)
        }
    }

    /// Get current receive window for a stream (0 is the connection; 0 for an unknown stream).
    pub fn recv_window(&self, stream_id: u64) -> (w: u32)
        ensures
            w == model_recv_window(self@, stream_id),
    {
        if stream_id == 0 {
            self.connection_recv_window
        } else {
            window_of(&self.stream_recv_windows, stream_id)
        }
    }

    /// Get effective send window (minimum of connection and stream windows).
    pub fn effective_send_window(&self, stream_id: u64) -> (w: u32)
        ensures
            w == model_effective_send_window(self@, stream_id),
    {
        if stream_id == 0 {
            self.connection_send_window
        } else {
            let stream_window = window_of(&self.stream_send_windows, stream_id);
            if self.connection_send_window <= stream_window {
                self.connection_send_window
            } else {
                stream_window
            }
        }
    }

    /// The initial connection window.
    pub fn initial_connection_window(&self) -> (w: u32)
        ensures
            w == self@.initial_connection_window,
    {
        self.initial_connection_window
    }

    /// The initial stream window.
    pub fn initial_stream_window(&self) -> (w: u32)
        ensures
            w == self@.initial_stream_window,
    {
        self.initial_stream_window
    }

    /// Get pending window updates.
    pub fn pending_window_updates(&self) -> (u: &[WindowUpdate])
        ensures
            u@ == self@.pending_updates,
    {
        self.pending_updates.as_slice()
    }

    /// Clear pending window updates.
    pub fn clear_pending_updates(&mut self)
        ensures
            final(self)@ == (FlowModel { pending_updates: Seq::empty(), ..old(self)@ }),
    {
        self.pending_updates = Vec::new();
    }

    /// Add a pending window update.
    pub fn add_pending_update(&mut self, stream_id: u64, increment: u32)
        ensures
            final(self)@ == (FlowModel {
                pending_updates: old(self)@.pending_updates.push(WindowUpdate { stream_id, increment }),
                ..old(self)@
            }),
    {
        self.pending_updates.push(WindowUpdate { stream_id, increment });
    }

    /// Get flow control statistics.
    pub fn get_stats(&self) -> (s: FlowControlStats)
        ensures
            s == flow_stats(self@),
            self@.stream_send_windows.dom().finite(),
            self@.stream_send_windows.dom().len() <= usize::MAX,
            self@.pending_updates.len() <= usize::MAX,
    {
        proof {
            broadcast use vstd::std_specs::hash::axiom_hashmap_view_finite_dom;
            broadcast use vstd::std_specs::hash::axiom_spec_hash_map_len;
        }
        FlowControlStats {
            connection_send_window: self.connection_send_window,
            connection_recv_window: self.connection_recv_window,
            total_bytes_sent: self.total_bytes_sent,
            total_bytes_received: self.total_bytes_received,
            active_streams: self.stream_send_windows.len(),
            pending_updates: self.pending_updates.len(),
        }
    }

    /// Reset flow control state: windows back to the initial connection window, no streams,
    /// counters and pending updates cleared.
    pub fn reset(&mut self)
        ensures
            final(self)@ == (FlowModel {
                connection_send_window: old(self)@.initial_connection_window,
                connection_recv_window: old(self)@.initial_connection_window,
                stream_send_windows: Map::empty(),
                stream_recv_windows: Map::empty(),
                total_bytes_sent: 0,
                total_bytes_received: 0,
                pending_updates: Seq::empty(),
                ..old(self)@
            }),
    {
        self.connection_send_window = self.initial_connection_window;
        self.connection_recv_window = self.initial_connection_window;
        self.stream_send_windows.clear();
        self.stream_recv_windows.clear();
        self.total_bytes_sent = 0;
        self.total_bytes_received = 0;
        self.pending_updates = Vec::new();
    }

    /// Update initial window sizes. A new size outside `MIN_WINDOW_SIZE..=MAX_WINDOW_SIZE` is
    /// refused; the connection part is applied before the stream part is checked. The current
    /// windows move by the change of the initial size, see `adjusted_window`.
    pub fn update_initial_window_sizes(
        &mut self,
        connection_window: Option<u32>,
        stream_window: Option<u32>,
    ) -> (res: H3Result<()>)
        ensures
            ({
                let m = old(self)@;
                let conn_bad = connection_window matches Some(c) && (c < MIN_WINDOW_SIZE || c
                    > MAX_WINDOW_SIZE);
                let m1 = match connection_window {
                    Some(c) => {
                        let diff = c - m.initial_connection_window;
                        FlowModel {
                            initial_connection_window: c,
                            connection_send_window: adjusted_window(m.connection_send_window, diff),
                            connection_recv_window: adjusted_window(m.connection_recv_window, diff),
                            ..m
                        }
                    },
                    None => m,
                };
                let stream_bad = stream_window matches Some(s) && (s < MIN_WINDOW_SIZE || s
                    > MAX_WINDOW_SIZE);
                let m2 = match stream_window {
                    Some(s) => {
                        let diff = s - m1.initial_stream_window;
                        FlowModel {
                            initial_stream_window: s,
                            stream_send_windows: adjusted_windows(m1.stream_send_windows, diff),
                            stream_recv_windows: adjusted_windows(m1.stream_recv_windows, diff),
                            ..m1
                        }
                    },
                    None => m1,
                };
                if conn_bad {
                    &&& final(self)@ == m
                    &&& res matches Err(e) && is_invalid_state(
                        e,
                        window_range_text(),
                        decimal(connection_window.unwrap() as nat),
                    )
                } else if stream_bad {
                    &&& final(self)@ == m1
                    &&& res matches Err(e) && is_invalid_state(
                        e,
                        window_range_text(),
                        decimal(stream_window.unwrap() as nat),
                    )
                } else {
                    &&& final(self)@ == m2
                    &&& res is Ok
                }
            }),
    {
        if let Some(new_conn_window) = connection_window {
            if new_conn_window < MIN_WINDOW_SIZE || new_conn_window > MAX_WINDOW_SIZE {
                return Err(window_range_error(new_conn_window));
            }
            let diff: i64 = new_conn_window as i64 - self.initial_connection_window as i64;
            self.initial_connection_window = new_conn_window;
            self.connection_send_window = clamp_window(self.connection_send_window, diff);
            self.connection_recv_window = clamp_window(self.connection_recv_window, diff);
        }
        if let Some(new_stream_window) = stream_window {
            if new_stream_window < MIN_WINDOW_SIZE || new_stream_window > MAX_WINDOW_SIZE {
                return Err(window_range_error(new_stream_window));
            }
            let diff: i64 = new_stream_window as i64 - self.initial_stream_window as i64;
            self.initial_stream_window = new_stream_window;
            adjust_all(&mut self.stream_send_windows, diff);
            adjust_all(&mut self.stream_recv_windows, diff);
        }
        Ok(())
    }
}

/// Move every window of the map by `diff`.
fn adjust_all(m: &mut HashMap<u64, u32>, diff: i64)
    requires
        -0x1_0000_0000 <= diff <= 0x1_0000_0000,
    ensures
        final(m)@ == adjusted_windows(old(m)@, diff as int),
{
    let keys = collect_keys(m);
    let mut i: usize = 0;
    while i < keys.len()
        invariant
            -0x1_0000_0000 <= diff <= 0x1_0000_0000,
            0 <= i <= keys@.len(),
            keys@.to_set() == old(m)@.dom(),
            keys@.no_duplicates(),
            m@.dom() == old(m)@.dom(),
            forall|k: u64|
                #![trigger m@[k]]
                m@.contains_key(k) ==> (if keys@.subrange(0, i as int).contains(k) {
                    m@[k] == adjusted_window(old(m)@[k], diff as int)
                } else {
                    m@[k] == old(m)@[k]
                }),
        decreases keys@.len() - i,
    {
        let k = keys[i];
        assert(keys@.to_set().contains(k));
        let w = window_of(m, k);
        let ghost before = m@;
        m.insert(k, clamp_window(w, diff));
        proof {
            assert(m@.dom() =~= old(m)@.dom());
            assert forall|j: u64| #![trigger m@[j]] m@.contains_key(j) implies (if keys@.subrange(
                0,
                i + 1,
            ).contains(j) {
                m@[j] == adjusted_window(old(m)@[j], diff as int)
            } else {
                m@[j] == old(m)@[j]
            }) by {
                if j == k {
                    assert(keys@.subrange(0, i + 1)[i as int] == k);
                    assert(!keys@.subrange(0, i as int).contains(k)) by {
                        if keys@.subrange(0, i as int).contains(k) {
                            let w2 = choose|w2: int| 0 <= w2 < i && #[trigger] keys@.subrange(0, i as int)[w2] == k;
                            assert(keys@[w2] == keys@[i as int]);
                        }
                    }
                } else {
                    if keys@.subrange(0, i + 1).contains(j) {
                        let w2 = choose|w2: int| 0 <= w2 < i + 1 && #[trigger] keys@.subrange(0, i + 1)[w2] == j;
                        assert(keys@.subrange(0, i as int)[w2] == j);
                    }
                    if keys@.subrange(0, i as int).contains(j) {
                        let w2 = choose|w2: int| 0 <= w2 < i && #[trigger] keys@.subrange(0, i as int)[w2] == j;
                        assert(keys@.subrange(0, i + 1)[w2] == j);
                    }
                }
            }
        }
        i = i + 1;
    }
    proof {
        assert forall|k: u64| m@.contains_key(k) implies keys@.subrange(0, keys@.len() as int).contains(k) by {
            assert(keys@.subrange(0, keys@.len() as int) =~= keys@);
            assert(keys@.to_set().contains(k));
        }
        assert(m@ =~= adjusted_windows(old(m)@, diff as int));
    }
}

} // verus!

verus! {

/// Reserving send window on a stream and then granting the same number of bytes back, first on
/// the stream and then on the connection, restores both windows; only the count of bytes sent
/// has grown.
pub proof fn lemma_reserve_then_release(m: FlowModel, stream_id: u64, bytes: u32)
    requires
        stream_id != 0,
        m.connection_send_window >= bytes,
        window_in(m.stream_send_windows, stream_id) >= bytes,
        m.connection_send_window <= MAX_WINDOW_SIZE,
        window_in(m.stream_send_windows, stream_id) <= MAX_WINDOW_SIZE,
        m.total_bytes_sent + bytes <= u64::MAX,
    ensures
        ({
            let m1 = spec_reserve(m, stream_id, bytes).0;
            let m2 = spec_update_send(m1, stream_id, bytes);
            &&& m2 is Some
            &&& spec_update_send(m2.unwrap(), 0, bytes) is Some
            &&& ({
                let m3 = spec_update_send(m2.unwrap(), 0, bytes).unwrap();
                &&& m3.connection_send_window == m.connection_send_window
                &&& m3.stream_send_windows == m.stream_send_windows.insert(
                    stream_id,
                    window_in(m.stream_send_windows, stream_id),
                )
                &&& m3.total_bytes_sent == m.total_bytes_sent + bytes
                &&& m3.stream_recv_windows == m.stream_recv_windows
            })
        }),
{
    let m1 = spec_reserve(m, stream_id, bytes).0;
    assert(window_in(m1.stream_send_windows, stream_id) == window_in(m.stream_send_windows, stream_id)
        - bytes);
    let m2 = spec_update_send(m1, stream_id, bytes).unwrap();
    assert(m2.stream_send_windows =~= m.stream_send_windows.insert(
        stream_id,
        window_in(m.stream_send_windows, stream_id),
    ));
}

/// Removing a stream: its windows read 0 and nothing can be sent on it, one stream fewer is
/// active when it was tracked, and the connection, the counters, the pending updates and every
/// other stream's windows are unchanged.
pub proof fn lemma_remove_stream_law(m: FlowModel, stream_id: u64, other: u64)
    requires
        stream_id != 0,
        m.stream_send_windows.dom().finite(),
        m.stream_send_windows.dom().len() <= usize::MAX,
    ensures
        ({
            let r = stream_removed(m, stream_id);
            &&& model_send_window(r, stream_id) == 0
            &&& model_recv_window(r, stream_id) == 0
            &&& !model_can_send(r, stream_id, 0)
            &&& flow_stats(r).active_streams == flow_stats(m).active_streams - (
            if m.stream_send_windows.contains_key(stream_id) {
                1int
            } else {
                0int
            })
            &&& r.connection_send_window == m.connection_send_window
            &&& r.connection_recv_window == m.connection_recv_window
            &&& r.total_bytes_sent == m.total_bytes_sent
            &&& r.total_bytes_received == m.total_bytes_received
            &&& r.pending_updates == m.pending_updates
            &&& other != stream_id ==> model_send_window(r, other) == model_send_window(m, other)
                && model_recv_window(r, other) == model_recv_window(m, other)
        }),
{
    let r = stream_removed(m, stream_id);
    if m.stream_send_windows.contains_key(stream_id) {
        assert(r.stream_send_windows.dom() =~= m.stream_send_windows.dom().remove(stream_id));
    } else {
        assert(r.stream_send_windows.dom() =~= m.stream_send_windows.dom());
    }
}

/// Adding a pending update appends it at the end (duplicates kept) and counts one more; the
/// windows and counters are unchanged.
pub proof fn lemma_add_pending_update_law(m: FlowModel, stream_id: u64, increment: u32)
    requires
        m.pending_updates.len() < usize::MAX,
    ensures
        ({
            let r = FlowModel {
                pending_updates: m.pending_updates.push(WindowUpdate { stream_id, increment }),
                ..m
            };
            &&& r.pending_updates.len() == m.pending_updates.len() + 1
            &&& r.pending_updates.last() == WindowUpdate { stream_id, increment }
            &&& r.pending_updates.drop_last() == m.pending_updates
            &&& flow_stats(r).pending_updates == flow_stats(m).pending_updates + 1
            &&& flow_stats(r).active_streams == flow_stats(m).active_streams
            &&& r.stream_send_windows == m.stream_send_windows
            &&& r.stream_recv_windows == m.stream_recv_windows
        }),
{
    assert(m.pending_updates.push(WindowUpdate { stream_id, increment }).drop_last()
        =~= m.pending_updates);
}

/// A window value held between 0 and the largest window size.
pub open spec fn window_clamped(x: int) -> u32 {
    if x < 0 {
        0
    } else if x > MAX_WINDOW_SIZE {
        MAX_WINDOW_SIZE
    } else {
        x as u32
    }
}

/// Changing the initial stream window to an allowed size `n` moves each tracked stream window
/// by the difference and holds it between 0 and the largest window size, for windows that are
/// themselves within the largest size.
pub proof fn lemma_stream_window_update_clamps(m: FlowModel, n: u32, k: u64)
    requires
        MIN_WINDOW_SIZE <= n <= MAX_WINDOW_SIZE,
        m.stream_send_windows.contains_key(k) ==> m.stream_send_windows[k] <= MAX_WINDOW_SIZE,
        m.stream_recv_windows.contains_key(k) ==> m.stream_recv_windows[k] <= MAX_WINDOW_SIZE,
    ensures
        ({
            let d = n - m.initial_stream_window;
            &&& m.stream_send_windows.contains_key(k) ==> adjusted_windows(
                m.stream_send_windows,
                d,
            )[k] == window_clamped(m.stream_send_windows[k] + d)
            &&& m.stream_recv_windows.contains_key(k) ==> adjusted_windows(
                m.stream_recv_windows,
                d,
            )[k] == window_clamped(m.stream_recv_windows[k] + d)
        }),
{
    let d = n - m.initial_stream_window;
    if m.stream_send_windows.contains_key(k) {
        lemma_adjusted_in_range(m.stream_send_windows[k], d);
    }
    if m.stream_recv_windows.contains_key(k) {
        lemma_adjusted_in_range(m.stream_recv_windows[k], d);
    }
}

proof fn lemma_adjusted_in_range(w: u32, d: int)
    requires
        w <= MAX_WINDOW_SIZE,
        d <= MAX_WINDOW_SIZE,
    ensures
        adjusted_window(w, d) == window_clamped(w + d),
{
    let v = if w + d < 0 { 0int } else { w + d };
    assert(0 <= v <= u32::MAX);
    assert(v as u32 == v);
}

/// When `can_send` says yes, both the connection window and (for a stream) the stream's own
/// window hold the bytes, so the effective window does too; and reserving those bytes then
/// goes through without a blocked event, taking them off the connection window (and off the
/// stream's window). For stream 0, a tracked stream, or a non-empty request, `can_send` says
/// yes exactly when the reservation is not blocked.
pub proof fn lemma_can_send_agrees_with_reservation(m: FlowModel, stream_id: u64, bytes: u32)
    ensures
        model_can_send(m, stream_id, bytes) ==> {
            &&& model_send_window(m, 0) >= bytes
            &&& model_send_window(m, stream_id) >= bytes
            &&& model_effective_send_window(m, stream_id) >= bytes
            &&& reserve_goes_through(m, stream_id, bytes)
            &&& forall|i: int|
                0 <= i < spec_reserve(m, stream_id, bytes).1.len() ==> !(#[trigger] spec_reserve(
                    m,
                    stream_id,
                    bytes,
                ).1[i] is FlowControlBlocked)
            &&& spec_reserve(m, stream_id, bytes).0.connection_send_window
                == m.connection_send_window - bytes
            &&& stream_id != 0 ==> model_send_window(spec_reserve(m, stream_id, bytes).0, stream_id)
                == model_send_window(m, stream_id) - bytes
        },
        (stream_id == 0 || m.stream_send_windows.contains_key(stream_id) || bytes > 0) ==> (
        model_can_send(m, stream_id, bytes) <==> reserve_goes_through(m, stream_id, bytes)),
{
    if model_can_send(m, stream_id, bytes) {
        let r = spec_reserve(m, stream_id, bytes);
        let w = window_in(m.stream_send_windows, stream_id);
        let se = if stream_id != 0 && w == bytes {
            seq![FlowControlEvent::WindowExhausted { stream_id }]
        } else {
            Seq::empty()
        };
        let conn = (m.connection_send_window - bytes) as u32;
        let ce = if conn == 0 {
            seq![FlowControlEvent::WindowExhausted { stream_id: 0 }]
        } else {
            Seq::empty()
        };
        assert(r.1 == se + ce);
        assert forall|i: int| 0 <= i < r.1.len() implies !(#[trigger] r.1[i] is FlowControlBlocked) by {
            if i < se.len() {
                assert(r.1[i] == se[i]);
            } else {
                assert(r.1[i] == ce[i - se.len()]);
            }
        }
    }
}

/// A reservation that a window blocks changes nothing and reports that window.
pub proof fn lemma_blocked_reservation_changes_nothing(m: FlowModel, stream_id: u64, bytes: u32)
    requires
        !model_can_send(m, stream_id, bytes) && (stream_id == 0 || m.stream_send_windows.contains_key(
            stream_id,
        ) || bytes > 0),
    ensures
        spec_reserve(m, stream_id, bytes).0 == m,
        spec_reserve(m, stream_id, bytes).1.len() == 1,
        spec_reserve(m, stream_id, bytes).1[0] is FlowControlBlocked,
{
}

} // verus!
