//! The state that the middleware keeps for a request or response body while its
//! frames stream through: what to log, and the bytes captured for inspection.
use vstd::prelude::*;
use crate::hexdump::{hex_dump, hex_dump_text};
use crate::render::{format_grpc_message, grpc_message_text};

verus! {

/// Which side of the call a [`DebugBody`] is wrapping, used to label log output.
#[derive(Debug, Clone, Copy, PartialEq, Eq, Structural)]
pub enum Direction {
    /// An inbound request body being read by the inner service.
    Request,
    /// An outbound response body being streamed back to the caller.
    Response,
}

impl Direction {
    /// Lowercase label used in log messages ("request" / "response").
    pub fn as_str(self) -> (r: &'static str)
        ensures
            r@ == (match self {
                Direction::Request => "request"@,
                Direction::Response => "response"@,
            }),
    {
        match self {
            Direction::Request => "request",
            Direction::Response => "response",
        }
    }
}

/// A wrapper around a body that captures and renders its gRPC frames as they
/// are streamed.
pub struct DebugBody<B> {
    inner: B,
    method: String,
    direction: Direction,
    log_body: bool,
    log_frames: bool,
    hex_dump: bool,
    max_capture_bytes: usize,
    captured: Vec<u8>,
}

/// The bytes captured after `incoming` arrives, when `captured` were captured
/// before: incoming bytes are kept while the total stays within `max`.
pub open spec fn capture_after(captured: Seq<u8>, incoming: Seq<u8>, max: nat) -> Seq<u8> {
    let room: int = if captured.len() < max { max - captured.len() } else { 0 };
    let take: int = if incoming.len() < room { incoming.len() as int } else { room };
    captured + incoming.take(take)
}

impl<B> DebugBody<B> {
    pub closed spec fn spec_inner(self) -> B {
        self.inner
    }

    pub closed spec fn spec_method(self) -> Seq<char> {
        self.method@
    }

    pub closed spec fn spec_direction(self) -> Direction {
        self.direction
    }

    pub closed spec fn spec_log_body(self) -> bool {
        self.log_body
    }

    pub closed spec fn spec_log_frames(self) -> bool {
        self.log_frames
    }

    pub closed spec fn spec_hex_dump(self) -> bool {
        self.hex_dump
    }

    pub closed spec fn spec_max_capture_bytes(self) -> nat {
        self.max_capture_bytes as nat
    }

    /// The bytes captured so far.
    pub closed spec fn spec_captured(self) -> Seq<u8> {
        self.captured@
    }

    /// Creates a new `DebugBody` wrapping the given body, with nothing captured.
    pub fn new(
        inner: B,
        method: String,
        direction: Direction,
        log_body: bool,
        log_frames: bool,
        hex_dump: bool,
        max_capture_bytes: usize,
    ) -> (r: Self)
        ensures
            r.spec_inner() == inner,
            r.spec_method() == method@,
            r.spec_direction() == direction,
            r.spec_log_body() == log_body,
            r.spec_log_frames() == log_frames,
            r.spec_hex_dump() == hex_dump,
            r.spec_max_capture_bytes() == max_capture_bytes,
            r.spec_captured() == Seq::<u8>::empty(),
    {
        DebugBody {
            inner,
            method,
            direction,
            log_body,
            log_frames,
            hex_dump,
            max_capture_bytes,
            captured: Vec::new(),
        }
    }

    /// Records the data of a frame: the bytes that still fit under the capture
    /// limit are appended to the captured bytes.
    pub fn capture(&mut self, bytes: &[u8])
        ensures
            final(self).spec_captured() == capture_after(
                old(self).spec_captured(),
                bytes@,
                old(self).spec_max_capture_bytes(),
            ),
            final(self).spec_inner() == old(self).spec_inner(),
            final(self).spec_method() == old(self).spec_method(),
            final(self).spec_direction() == old(self).spec_direction(),
            final(self).spec_log_body() == old(self).spec_log_body(),
            final(self).spec_log_frames() == old(self).spec_log_frames(),
            final(self).spec_hex_dump() == old(self).spec_hex_dump(),
            final(self).spec_max_capture_bytes() == old(self).spec_max_capture_bytes(),
    {
        let remaining = self.max_capture_bytes.saturating_sub(self.captured.len());
        let to_capture = if bytes.len() < remaining { bytes.len() } else { remaining };
        let part = vstd::slice::slice_subrange(bytes, 0, to_capture);
        self.captured.extend_from_slice(part);
        assert(part@ =~= bytes@.take(to_capture as int));
    }

    /// The text logged for the data of a frame: its hex dump, limited to the
    /// capture size, when hex dumps are on; its gRPC frames otherwise.
    pub fn render_frame(&self, bytes: &[u8]) -> (r: String)
        ensures
            r@ == if self.spec_hex_dump() {
                hex_dump_text(bytes@, self.spec_max_capture_bytes())
            } else {
                grpc_message_text(bytes@)
            },
    {
        if self.hex_dump {
            hex_dump(bytes, self.max_capture_bytes)
        } else {
            format_grpc_message(bytes)
        }
    }

    /// The method path that labels this body's log output.
    pub fn method(&self) -> (r: &str)
        ensures
            r@ == self.spec_method(),
    {
        self.method.as_str()
    }

    /// The direction that labels this body's log output.
    pub fn direction(&self) -> (r: Direction)
        ensures
            r == self.spec_direction(),
    {
        self.direction
    }

    /// Whether body contents are inspected at all.
    pub fn log_body(&self) -> (r: bool)
        ensures
            r == self.spec_log_body(),
    {
        self.log_body
    }

    /// Whether each streamed frame is logged as it passes.
    pub fn log_frames(&self) -> (r: bool)
        ensures
            r == self.spec_log_frames(),
    {
        self.log_frames
    }

    /// The number of bytes captured so far.
    pub fn captured_len(&self) -> (r: usize)
        ensures
            r == self.spec_captured().len(),
    {
        self.captured.len()
    }

    /// Separates the wrapped body from the inspection state, which keeps
    /// everything else.
    pub fn split(self) -> (r: (B, DebugBody<()>))
        ensures
            r.0 == self.spec_inner(),
            r.1.spec_method() == self.spec_method(),
            r.1.spec_direction() == self.spec_direction(),
            r.1.spec_log_body() == self.spec_log_body(),
            r.1.spec_log_frames() == self.spec_log_frames(),
            r.1.spec_hex_dump() == self.spec_hex_dump(),
            r.1.spec_max_capture_bytes() == self.spec_max_capture_bytes(),
            r.1.spec_captured() == self.spec_captured(),
    {
        let DebugBody {
            inner,
            method,
            direction,
            log_body,
            log_frames,
            hex_dump,
            max_capture_bytes,
            captured,
        } = self;
        (
            inner,
            DebugBody {
                inner: (),
                method,
                direction,
                log_body,
                log_frames,
                hex_dump,
                max_capture_bytes,
                captured,
            },
        )
    }
}

/// The capture never holds more than its limit, and what it holds is the start
/// of everything that arrived: capturing `incoming` after `captured` gives a
/// prefix of `captured + incoming` no longer than `max`, and all of it while
/// it fits.
pub proof fn lemma_capture_bounded(captured: Seq<u8>, incoming: Seq<u8>, max: nat)
    requires
        captured.len() <= max,
    ensures
        capture_after(captured, incoming, max).len() <= max,
        capture_after(captured, incoming, max) =~= (captured + incoming).take(
            capture_after(captured, incoming, max).len() as int,
        ),
        captured.len() + incoming.len() <= max ==> capture_after(captured, incoming, max) =~= captured + incoming,
{
    assert(incoming.take(incoming.len() as int) =~= incoming);
}

} // verus!
