//! Bookkeeping of one gRPC stream.
//!
//! The four kinds of call differ only in how many messages flow each way:
//! - unary: one request, one response
//! - client streaming: several requests, one response
//! - server streaming: one request, several responses
//! - bidirectional streaming: several of both
//!
//! A stream starts as unary and is promoted as soon as a second message is
//! seen in a direction.

use vstd::prelude::*;
use std::time::{Duration, Instant};
use crate::time::{elapsed_since, now};

verus! {

/// The kinds of gRPC call.
#[derive(Debug, Clone, Copy, PartialEq, Eq, Structural)]
pub enum GrpcStreamType {
    /// One request, one response.
    Unary,
    /// Several requests, one response.
    ClientStreaming,
    /// One request, several responses.
    ServerStreaming,
    /// Several requests and several responses.
    BidirectionalStreaming,
}

impl GrpcStreamType {
    /// The kind after a second request message was seen.
    pub open spec fn with_client_stream(self) -> Self {
        match self {
            Self::Unary => Self::ClientStreaming,
            Self::ServerStreaming => Self::BidirectionalStreaming,
            other => other,
        }
    }

    /// The kind after a second response message was seen.
    pub open spec fn with_server_stream(self) -> Self {
        match self {
            Self::Unary => Self::ServerStreaming,
            Self::ClientStreaming => Self::BidirectionalStreaming,
            other => other,
        }
    }

    /// Whether the client sends several messages.
    pub fn is_client_streaming(&self) -> (r: bool)
        ensures
            r == (*self == Self::ClientStreaming || *self == Self::BidirectionalStreaming),
    {
        matches!(self, Self::ClientStreaming | Self::BidirectionalStreaming)
    }

    /// Whether the server sends several messages.
    pub fn is_server_streaming(&self) -> (r: bool)
        ensures
            r == (*self == Self::ServerStreaming || *self == Self::BidirectionalStreaming),
    {
        matches!(self, Self::ServerStreaming | Self::BidirectionalStreaming)
    }
}

impl Default for GrpcStreamType {
    fn default() -> (r: Self)
        ensures
            r == GrpcStreamType::Unary,
    {
        Self::Unary
    }
}

/// State of one gRPC stream.
#[derive(Debug, Clone)]
pub struct GrpcStreamState {
    /// HTTP/2 stream id.
    pub stream_id: u32,
    /// Kind of call, as far as the messages seen reveal it.
    pub stream_type: GrpcStreamType,
    /// Whether the client has finished sending.
    pub client_done: bool,
    /// Whether the server has started to respond.
    pub response_started: bool,
    /// Whether the server has finished sending.
    pub server_done: bool,
    /// Whether the trailers have been sent.
    pub trailers_sent: bool,
    /// Request messages received.
    pub request_frames: usize,
    /// Response messages sent.
    pub response_frames: usize,
    /// When the stream was created.
    pub created_at: Instant,
    /// When the stream last saw activity.
    pub last_activity: Instant,
}

/// What the state of a stream says about the call, apart from its clock
/// readings.
pub struct StreamModel {
    pub stream_id: u32,
    pub stream_type: GrpcStreamType,
    pub client_done: bool,
    pub response_started: bool,
    pub server_done: bool,
    pub trailers_sent: bool,
    pub request_frames: nat,
    pub response_frames: nat,
}

impl View for GrpcStreamState {
    type V = StreamModel;

    open spec fn view(&self) -> StreamModel {
        StreamModel {
            stream_id: self.stream_id,
            stream_type: self.stream_type,
            client_done: self.client_done,
            response_started: self.response_started,
            server_done: self.server_done,
            trailers_sent: self.trailers_sent,
            request_frames: self.request_frames as nat,
            response_frames: self.response_frames as nat,
        }
    }
}

impl StreamModel {
    /// A stream on which nothing has happened yet.
    pub open spec fn fresh(stream_id: u32) -> Self {
        StreamModel {
            stream_id,
            stream_type: GrpcStreamType::Unary,
            client_done: false,
            response_started: false,
            server_done: false,
            trailers_sent: false,
            request_frames: 0,
            response_frames: 0,
        }
    }

    /// The stream after one more request message.
    pub open spec fn request_frame(self) -> Self {
        StreamModel {
            request_frames: self.request_frames + 1,
            stream_type: if self.request_frames + 1 > 1 {
                self.stream_type.with_client_stream()
            } else {
                self.stream_type
            },
            ..self
        }
    }

    /// The stream after one more response message.
    pub open spec fn response_frame(self) -> Self {
        StreamModel {
            response_frames: self.response_frames + 1,
            response_started: true,
            stream_type: if self.response_frames + 1 > 1 {
                self.stream_type.with_server_stream()
            } else {
                self.stream_type
            },
            ..self
        }
    }
}

impl GrpcStreamState {
    /// The state of a new stream.
    pub fn new(stream_id: u32) -> (r: Self)
        ensures
            r@ == StreamModel::fresh(stream_id),
            r.created_at == r.last_activity,
    {
        let t = now();
        Self {
            stream_id,
            stream_type: GrpcStreamType::Unary,
            client_done: false,
            response_started: false,
            server_done: false,
            trailers_sent: false,
            request_frames: 0,
            response_frames: 0,
            created_at: t,
            last_activity: t,
        }
    }

    /// Records a request message. The second one makes the call client
    /// streaming.
    pub fn on_request_frame(&mut self)
        requires
            old(self).request_frames < usize::MAX,
        ensures
            final(self)@ == old(self)@.request_frame(),
            final(self).created_at == old(self).created_at,
    {
        self.request_frames += 1;
        self.last_activity = now();
        if self.request_frames > 1 {
            match self.stream_type {
                GrpcStreamType::Unary => {
                    self.stream_type = GrpcStreamType::ClientStreaming;
                },
                GrpcStreamType::ServerStreaming => {
                    self.stream_type = GrpcStreamType::BidirectionalStreaming;
                },
                _ => {},
            }
        }
    }

    /// Records that the client has finished sending.
    pub fn on_client_done(&mut self)
        ensures
            final(self)@ == (StreamModel { client_done: true, ..old(self)@ }),
            final(self).created_at == old(self).created_at,
    {
        self.client_done = true;
        self.last_activity = now();
    }

    /// Records a response message. The second one makes the call server
    /// streaming.
    pub fn on_response_frame(&mut self)
        requires
            old(self).response_frames < usize::MAX,
        ensures
            final(self)@ == old(self)@.response_frame(),
            final(self).created_at == old(self).created_at,
    {
        self.response_frames += 1;
        self.response_started = true;
        self.last_activity = now();
        if self.response_frames > 1 {
            match self.stream_type {
                GrpcStreamType::Unary => {
                    self.stream_type = GrpcStreamType::ServerStreaming;
                },
                GrpcStreamType::ClientStreaming => {
                    self.stream_type = GrpcStreamType::BidirectionalStreaming;
                },
                _ => {},
            }
        }
    }

    /// Records that the server has finished sending.
    pub fn on_server_done(&mut self)
        ensures
            final(self)@ == (StreamModel { server_done: true, ..old(self)@ }),
            final(self).created_at == old(self).created_at,
    {
        self.server_done = true;
        self.last_activity = now();
    }

    /// Records that the trailers were sent, which also ends the server's
    /// side.
    pub fn on_trailers_sent(&mut self)
        ensures
            final(self)@ == (StreamModel { trailers_sent: true, server_done: true, ..old(self)@ }),
            final(self).created_at == old(self).created_at,
    {
        self.trailers_sent = true;
        self.server_done = true;
        self.last_activity = now();
    }

    /// Whether more request messages are expected.
    pub fn expects_client_data(&self) -> (r: bool)
        ensures
            r == (!self.client_done && (self.stream_type == GrpcStreamType::ClientStreaming
                || self.stream_type == GrpcStreamType::BidirectionalStreaming)),
    {
        !self.client_done && self.stream_type.is_client_streaming()
    }

    /// Whether more response messages are expected.
    pub fn expects_server_data(&self) -> (r: bool)
        ensures
            r == (!self.server_done && (self.stream_type == GrpcStreamType::ServerStreaming
                || self.stream_type == GrpcStreamType::BidirectionalStreaming)),
    {
        !self.server_done && self.stream_type.is_server_streaming()
    }

    /// Whether both sides have finished.
    pub fn is_complete(&self) -> (r: bool)
        ensures
            r == (self.client_done && self.server_done),
    {
        self.client_done && self.server_done
    }

    /// Whether the trailers can be sent now: a response has started and
    /// they are not out yet.
    pub fn can_send_trailers(&self) -> (r: bool)
        ensures
            r == (!self.trailers_sent && self.response_started),
    {
        !self.trailers_sent && self.response_started
    }

    /// Time since the stream was created. It is read from the clock, so
    /// nothing is promised of it.
    pub fn age(&self) -> Duration {
        elapsed_since(&self.created_at)
    }

    /// Time since the last activity on the stream. It is read from the
    /// clock, so nothing is promised of it.
    pub fn idle_time(&self) -> Duration {
        elapsed_since(&self.last_activity)
    }
}

/// A stream never loses what it has learnt: once a call is known to stream
/// in a direction, no further message changes that.
pub proof fn lemma_stream_type_monotone(m: StreamModel)
    ensures
        (m.stream_type == GrpcStreamType::ClientStreaming || m.stream_type
            == GrpcStreamType::BidirectionalStreaming) ==> (m.response_frame().stream_type
            == GrpcStreamType::BidirectionalStreaming || m.response_frame().stream_type
            == GrpcStreamType::ClientStreaming),
        (m.stream_type == GrpcStreamType::ServerStreaming || m.stream_type
            == GrpcStreamType::BidirectionalStreaming) ==> (m.request_frame().stream_type
            == GrpcStreamType::BidirectionalStreaming || m.request_frame().stream_type
            == GrpcStreamType::ServerStreaming),
{
}

} // verus!
