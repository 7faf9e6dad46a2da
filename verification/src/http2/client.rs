//! Bookkeeping of one HTTP/2 client connection.
//!
//! The client owns no socket. It is told what was received and answers
//! with what is to be sent: the embedder moves the bytes. What is kept
//! here is the read buffer, the flow-control windows, the stream ids and
//! the settings of both sides.

use vstd::prelude::*;
use vstd::utf8::valid_utf8;
use vstd::string::StringSliceAdditionalSpecFns;
use crate::http2::error::Http2Error;
use crate::http2::frame::{Frame, FrameHeader, FRAME_HEADER_SIZE};
use crate::http2::settings::{
    Http2Settings, CONNECTION_WINDOW_SIZE, MAX_FRAME_SIZE, MAX_FRAME_SIZE_LIMIT,
    SETTINGS_HEADER_TABLE_SIZE, SETTINGS_INITIAL_WINDOW_SIZE, SETTINGS_MAX_FRAME_SIZE,
};
use crate::text::{
    ascii_lower, bytes_eq, bytes_eq_ignore_case, eq_ignore_case, header_list, lower_byte,
    parse_decimal, parse_unsigned, utf8_to_string,
};

verus! {

/// The connection preface that a client sends first.
pub const CONNECTION_PREFACE: &'static str = "PRI * HTTP/2.0\r\n\r\nSM\r\n\r\n";

/// Initial size of the read buffer.
pub const READ_BUFFER_SIZE: usize = 65536;

/// The read buffer is compacted once this many bytes at its start are
/// used up.
pub const COMPACT_THRESHOLD: usize = 32768;

/// Largest window that flow control allows: 2^31 - 1.
pub const MAX_WINDOW: i32 = 0x7fff_ffff;

/// Largest stream identifier: 2^31 - 1.
pub const MAX_STREAM_ID: u32 = 0x7fff_ffff;

/// How far the handshake has come.
#[derive(Debug, Clone, Copy, PartialEq, Eq, Structural)]
pub enum Handshake {
    /// The server's SETTINGS are awaited.
    AwaitSettings,
    /// The server's acknowledgement of the client's SETTINGS is awaited.
    AwaitAck,
    /// The handshake is over.
    Done,
}

/// One HTTP/2 client connection.
pub struct H2cClient {
    local_settings: Http2Settings,
    remote_settings: Http2Settings,
    encoder_table_size: u32,
    read_buf: Vec<u8>,
    buf_start: usize,
    buf_end: usize,
    conn_send_window: i32,
    conn_recv_window: i32,
    next_stream_id: u32,
    settings_ack_pending: bool,
    handshake: Handshake,
    going_away: bool,
}

/// Mathematical value of a client connection.
pub struct ClientModel {
    /// Settings of the client.
    pub local: Http2Settings,
    /// Settings of the server.
    pub remote: Http2Settings,
    /// Table size that the header encoder is to use.
    pub encoder_table_size: u32,
    /// Bytes received and not yet consumed.
    pub pending: Seq<u8>,
    /// Room left in the connection's send window.
    pub send_window: int,
    /// Room left in the connection's receive window.
    pub recv_window: int,
    /// The id of the next stream.
    pub next_stream_id: nat,
    /// Whether the client's SETTINGS await their acknowledgement.
    pub settings_ack_pending: bool,
    /// How far the handshake has come.
    pub handshake: Handshake,
    /// Whether the server has said that it takes no more streams.
    pub going_away: bool,
}

impl View for H2cClient {
    type V = ClientModel;

    closed spec fn view(&self) -> ClientModel {
        ClientModel {
            local: self.local_settings,
            remote: self.remote_settings,
            encoder_table_size: self.encoder_table_size,
            pending: self.read_buf@.subrange(self.buf_start as int, self.buf_end as int),
            send_window: self.conn_send_window as int,
            recv_window: self.conn_recv_window as int,
            next_stream_id: self.next_stream_id as nat,
            settings_ack_pending: self.settings_ack_pending,
            handshake: self.handshake,
            going_away: self.going_away,
        }
    }
}

/// The answer to a request.
#[derive(Debug, Clone)]
pub struct H2cResponse {
    /// Status code.
    pub status: u16,
    /// Response headers, pseudo-headers left out.
    pub headers: Vec<(Vec<u8>, Vec<u8>)>,
    /// Response body.
    pub body: Vec<u8>,
}

/// Mathematical value of an answer.
pub struct AnswerModel {
    pub status: u16,
    pub headers: Seq<(Seq<u8>, Seq<u8>)>,
    pub body: Seq<u8>,
}

impl View for H2cResponse {
    type V = AnswerModel;

    open spec fn view(&self) -> AnswerModel {
        AnswerModel { status: self.status, headers: header_list(self.headers@), body: self.body@ }
    }
}

/// Whether a header of an HTTP/1.1 request stays out of an HTTP/2
/// request: pseudo-headers, and the headers that belong to one connection
/// (`connection`, `keep-alive`, `transfer-encoding`) or are replaced by
/// `:authority` (`host`).
pub open spec fn is_dropped_header(name: Seq<u8>) -> bool {
    ||| (name.len() > 0 && name[0] == 0x3a)
    ||| eq_ignore_case(name, "connection".spec_bytes())
    ||| eq_ignore_case(name, "keep-alive".spec_bytes())
    ||| eq_ignore_case(name, "transfer-encoding".spec_bytes())
    ||| eq_ignore_case(name, "host".spec_bytes())
}

/// A header name in lower case.
pub open spec fn lower_name(name: Seq<u8>) -> Seq<u8> {
    Seq::new(name.len(), |i: int| ascii_lower(name[i]))
}

/// The headers of a request that are passed on, names in lower case.
pub open spec fn kept_headers(headers: Seq<(Seq<u8>, Seq<u8>)>) -> Seq<(Seq<u8>, Seq<u8>)>
    decreases headers.len(),
{
    if headers.len() == 0 {
        Seq::empty()
    } else if is_dropped_header(headers.last().0) {
        kept_headers(headers.drop_last())
    } else {
        kept_headers(headers.drop_last()).push((lower_name(headers.last().0), headers.last().1))
    }
}

/// The header list of a request: the four pseudo-headers first, then the
/// headers that are passed on.
pub open spec fn spec_request_headers(
    method: Seq<u8>,
    path: Seq<u8>,
    authority: Seq<u8>,
    headers: Seq<(Seq<u8>, Seq<u8>)>,
) -> Seq<(Seq<u8>, Seq<u8>)> {
    seq![
        (":method".spec_bytes(), method),
        (":path".spec_bytes(), path),
        (":scheme".spec_bytes(), "http".spec_bytes()),
        (":authority".spec_bytes(), authority),
    ] + kept_headers(headers)
}

/// Whether a header is dropped on the way to HTTP/2.
pub fn header_is_dropped(name: &[u8]) -> (r: bool)
    ensures
        r == is_dropped_header(name@),
{
    (name.len() > 0 && name[0] == 0x3a) || bytes_eq_ignore_case(name, "connection".as_bytes())
        || bytes_eq_ignore_case(name, "keep-alive".as_bytes()) || bytes_eq_ignore_case(
        name,
        "transfer-encoding".as_bytes(),
    ) || bytes_eq_ignore_case(name, "host".as_bytes())
}

fn lower_case(name: &[u8]) -> (r: Vec<u8>)
    ensures
        r@ == lower_name(name@),
{
    let mut out: Vec<u8> = Vec::new();
    let mut i: usize = 0;
    while i < name.len()
        invariant
            i <= name.len(),
            out@.len() == i,
            forall|j: int| 0 <= j < i ==> out@[j] == ascii_lower(name@[j]),
        decreases name.len() - i,
    {
        out.push(lower_byte(name[i]));
        i += 1;
    }
    assert(out@ =~= lower_name(name@));
    out
}

/// The header list of a request to send upstream.
pub fn request_header_list(method: &[u8], path: &[u8], authority: &[u8], headers: &[(Vec<u8>, Vec<u8>)]) -> (r:
    Vec<(Vec<u8>, Vec<u8>)>)
    ensures
        header_list(r@) == spec_request_headers(method@, path@, authority@, header_list(headers@)),
{
    let mut list: Vec<(Vec<u8>, Vec<u8>)> = Vec::new();
    list.push((vstd::slice::slice_to_vec(":method".as_bytes()), vstd::slice::slice_to_vec(method)));
    list.push((vstd::slice::slice_to_vec(":path".as_bytes()), vstd::slice::slice_to_vec(path)));
    list.push(
        (vstd::slice::slice_to_vec(":scheme".as_bytes()), vstd::slice::slice_to_vec("http".as_bytes())),
    );
    list.push((vstd::slice::slice_to_vec(":authority".as_bytes()), vstd::slice::slice_to_vec(authority)));
    let ghost head = header_list(list@);
    let ghost all = header_list(headers@);
    let mut i: usize = 0;
    assert(all.subrange(0, 0) =~= Seq::empty());
    assert(header_list(list@) =~= head + kept_headers(all.subrange(0, 0)));
    while i < headers.len()
        invariant
            i <= headers.len(),
            all == header_list(headers@),
            header_list(list@) == head + kept_headers(all.subrange(0, i as int)),
        decreases headers.len() - i,
    {
        assert(all.subrange(0, i + 1).drop_last() =~= all.subrange(0, i as int));
        let ghost before = header_list(list@);
        if !header_is_dropped(headers[i].0.as_slice()) {
            list.push(
                (lower_case(headers[i].0.as_slice()), vstd::slice::slice_to_vec(headers[i].1.as_slice())),
            );
            assert(header_list(list@) =~= before.push((lower_name(all[i as int].0), all[i as int].1)));
        }
        assert(header_list(list@) =~= head + kept_headers(all.subrange(0, i + 1)));
        i += 1;
    }
    assert(all.subrange(0, headers.len() as int) =~= all);
    list
}

/// The status after a `:status` value is taken in. A value that is a
/// decimal numeral up to 65535 sets the status; any other text sets it
/// to 0; a value that is not valid UTF-8 leaves the status as it was.
pub open spec fn status_after(current: u16, value: Seq<u8>) -> u16 {
    if !valid_utf8(value) {
        current
    } else {
        match parse_unsigned(value, 65535) {
            Some(n) => n as u16,
            None => 0,
        }
    }
}

/// An answer after the headers of a HEADERS frame are taken in:
/// `:status` sets the status, other pseudo-headers are dropped, and the
/// rest is appended to the headers.
pub open spec fn with_headers(answer: AnswerModel, headers: Seq<(Seq<u8>, Seq<u8>)>) -> AnswerModel
    decreases headers.len(),
{
    if headers.len() == 0 {
        answer
    } else {
        let before = with_headers(answer, headers.drop_last());
        let (name, value) = headers.last();
        if name == ":status".spec_bytes() {
            AnswerModel { status: status_after(before.status, value), ..before }
        } else if name.len() > 0 && name[0] == 0x3a {
            before
        } else {
            AnswerModel { headers: before.headers.push((name, value)), ..before }
        }
    }
}

impl H2cResponse {
    /// An answer of which nothing has arrived yet.
    pub fn new() -> (r: Self)
        ensures
            r@ == (AnswerModel { status: 0, headers: Seq::empty(), body: Seq::empty() }),
    {
        let r = H2cResponse { status: 0, headers: Vec::new(), body: Vec::new() };
        assert(header_list(r.headers@) =~= Seq::empty());
        r
    }

    /// Takes in the decoded headers of a HEADERS frame.
    pub fn add_headers(&mut self, headers: Vec<(Vec<u8>, Vec<u8>)>)
        ensures
            final(self)@ == with_headers(old(self)@, header_list(headers@)),
    {
        let ghost all = header_list(headers@);
        let mut source = headers;
        let total: usize = source.len();
        let mut done: usize = 0;
        assert(all.subrange(0, 0) =~= Seq::empty());
        while source.len() > 0
            invariant
                done + source@.len() == total,
                total == all.len(),
                header_list(source@) == all.subrange(done as int, total as int),
                self@ == with_headers(old(self)@, all.subrange(0, done as int)),
            decreases source.len(),
        {
            let ghost rest = header_list(source@);
            let ghost old_source = source@;
            let ghost before = self@;
            assert(done < total);
            let (name, value) = source.remove(0);
            assert(source@ =~= old_source.subrange(1, old_source.len() as int));
            assert(header_list(source@) =~= all.subrange(done + 1, total as int)) by {
                assert forall|k: int| 0 <= k < source@.len() implies header_list(source@)[k] == all[done
                    + 1 + k] by {
                    assert(source@[k] == old_source[k + 1]);
                    assert(rest[k + 1] == all[done + 1 + k]);
                }
            }
            assert((name@, value@) == all[done as int]) by {
                assert(rest[0] == all[done as int]);
            }
            assert(all.subrange(0, done + 1).drop_last() =~= all.subrange(0, done as int));
            assert(all.subrange(0, done + 1).last() == all[done as int]);
            if bytes_eq(name.as_slice(), ":status".as_bytes()) {
                if utf8_to_string(value.as_slice()).is_some() {
                    self.status = match parse_decimal(value.as_slice(), 65535) {
                        Some(n) => n as u16,
                        None => 0,
                    };
                }
            } else if name.len() > 0 && name[0] == 0x3a {
            } else {
                self.headers.push((name, value));
                assert(header_list(self.headers@) =~= before.headers.push(all[done as int]));
            }
            done += 1;
        }
        assert(all.subrange(0, total as int) =~= all);
    }
}

/// What the client answers to a frame.
#[derive(Debug, Clone)]
pub struct Step {
    /// Whether the answer to the request is complete.
    pub done: bool,
    /// Frames to send, in order.
    pub send: Vec<Frame>,
}

impl H2cClient {
    /// Whether the connection is well formed: the pending bytes lie
    /// within the read buffer, and the windows and the next stream id are
    /// within their ranges.
    pub closed spec fn wf(&self) -> bool {
        &&& self.buf_start <= self.buf_end <= self.read_buf@.len()
        &&& self.read_buf@.len() >= READ_BUFFER_SIZE
        &&& 0 <= self.conn_send_window
        &&& 32767 <= self.conn_recv_window <= 65535
        &&& self.next_stream_id % 2 == 1
        &&& self.next_stream_id <= MAX_STREAM_ID + 2
        &&& MAX_FRAME_SIZE <= self.remote_settings.max_frame_size <= MAX_FRAME_SIZE_LIMIT
    }

    /// A new connection with the client settings `settings`. Nothing is
    /// pending, both windows hold 65535 bytes, and the first stream will be
    /// stream 1.
    pub fn new(settings: Http2Settings) -> (r: Self)
        ensures
            r.wf(),
            r@ == (ClientModel {
                local: settings,
                remote: Http2Settings::initial(),
                encoder_table_size: settings.header_table_size,
                pending: Seq::empty(),
                send_window: 65535,
                recv_window: 65535,
                next_stream_id: 1,
                settings_ack_pending: false,
                handshake: Handshake::AwaitSettings,
                going_away: false,
            }),
    {
        let mut read_buf: Vec<u8> = Vec::new();
        read_buf.resize(READ_BUFFER_SIZE, 0u8);
        let r = Self {
            local_settings: settings,
            remote_settings: Http2Settings::default(),
            encoder_table_size: settings.header_table_size,
            read_buf,
            buf_start: 0,
            buf_end: 0,
            conn_send_window: CONNECTION_WINDOW_SIZE as i32,
            conn_recv_window: CONNECTION_WINDOW_SIZE as i32,
            next_stream_id: 1,
            settings_ack_pending: false,
            handshake: Handshake::AwaitSettings,
            going_away: false,
        };
        assert(r.read_buf@.subrange(0, 0) =~= Seq::empty());
        r
    }

    /// The table size that the header encoder is to use: the last that
    /// the server's settings asked for.
    pub fn encoder_table_size(&self) -> (r: u32)
        ensures
            r == self@.encoder_table_size,
    {
        self.encoder_table_size
    }

    /// Whether the server has said, with a GOAWAY, that it takes no more
    /// streams on this connection.
    pub fn is_going_away(&self) -> (r: bool)
        ensures
            r == self@.going_away,
    {
        self.going_away
    }

    /// The settings of the client.
    pub fn local_settings(&self) -> (r: Http2Settings)
        ensures
            r == self@.local,
    {
        self.local_settings
    }

    /// The settings of the server, as far as they are known.
    pub fn remote_settings(&self) -> (r: Http2Settings)
        ensures
            r == self@.remote,
    {
        self.remote_settings
    }

    /// The frames that open the connection after the preface: the
    /// client's SETTINGS. Their acknowledgement is then awaited.
    pub fn start_handshake(&mut self) -> (r: Vec<Frame>)
        requires
            old(self).wf(),
        ensures
            final(self).wf(),
            final(self)@ == (ClientModel { settings_ack_pending: true, ..old(self)@ }),
            r@.len() == 1,
            r@[0] matches Frame::Settings { ack: false, settings } && settings@ == old(self)@.local.entries(),
    {
        let mut out: Vec<Frame> = Vec::new();
        out.push(Frame::Settings { ack: false, settings: self.local_settings.encode() });
        self.settings_ack_pending = true;
        out
    }

    /// Moves the pending bytes to the start of the read buffer.
    pub fn compact_buffer(&mut self)
        requires
            old(self).wf(),
        ensures
            final(self).wf(),
            final(self)@ == old(self)@,
            final(self).consumed() == 0,
    {
        if self.buf_start > 0 {
            let remaining = self.buf_end - self.buf_start;
            let ghost pending = self@.pending;
            let mut i: usize = 0;
            while i < remaining
                invariant
                    i <= remaining,
                    remaining == self.buf_end - self.buf_start,
                    self.buf_start > 0,
                    self.buf_start <= self.buf_end <= self.read_buf@.len(),
                    self.read_buf@.len() == old(self).read_buf@.len(),
                    self.buf_start == old(self).buf_start,
                    self.buf_end == old(self).buf_end,
                    self.local_settings == old(self).local_settings,
                    self.remote_settings == old(self).remote_settings,
                    self.encoder_table_size == old(self).encoder_table_size,
                    self.conn_send_window == old(self).conn_send_window,
                    self.conn_recv_window == old(self).conn_recv_window,
                    self.next_stream_id == old(self).next_stream_id,
                    self.settings_ack_pending == old(self).settings_ack_pending,
                    self.handshake == old(self).handshake,
                    self.going_away == old(self).going_away,
                    forall|j: int| 0 <= j < i ==> self.read_buf@[j] == pending[j],
                    forall|j: int|
                        self.buf_start + i <= j < self.buf_end ==> self.read_buf@[j] == pending[j
                            - self.buf_start],
                decreases remaining - i,
            {
                let b = self.read_buf[self.buf_start + i];
                self.read_buf[i] = b;
                i += 1;
            }
            self.buf_start = 0;
            self.buf_end = remaining;
            assert(self@.pending =~= pending);
        }
    }

    /// Number of bytes at the start of the read buffer that are used up.
    pub closed spec fn consumed(&self) -> nat {
        self.buf_start as nat
    }

    /// Number of bytes received and not yet consumed.
    pub fn pending_len(&self) -> (r: usize)
        requires
            self.wf(),
        ensures
            r == self@.pending.len(),
    {
        self.buf_end - self.buf_start
    }

    /// Takes in bytes that were received. The read buffer is compacted or
    /// grown as needed.
    pub fn push_received(&mut self, data: &[u8])
        requires
            old(self).wf(),
            old(self)@.pending.len() + data@.len() <= usize::MAX / 2,
        ensures
            final(self).wf(),
            final(self)@ == (ClientModel { pending: old(self)@.pending + data@, ..old(self)@ }),
    {
        if self.read_buf.len() - self.buf_end < data.len() {
            self.compact_buffer();
        }
        if self.read_buf.len() - self.buf_end < data.len() {
            let ghost before = self.read_buf@;
            self.read_buf.resize(self.buf_end + data.len(), 0u8);
            assert(self.read_buf@.subrange(0, before.len() as int) == before);
            assert(self.read_buf@.subrange(self.buf_start as int, self.buf_end as int) =~= before.subrange(
                self.buf_start as int,
                self.buf_end as int,
            )) by {
                assert forall|j: int| self.buf_start <= j < self.buf_end implies self.read_buf@[j]
                    == before[j] by {
                    assert(self.read_buf@.subrange(0, before.len() as int)[j] == before[j]);
                }
            }
        }
        let ghost pending = self@.pending;
        let ghost start_end = self.buf_end;
        let mut i: usize = 0;
        while i < data.len()
            invariant
                i <= data.len(),
                self.buf_start <= start_end,
                self.buf_end == start_end + i,
                start_end + data@.len() <= self.read_buf@.len(),
                self.read_buf@.len() >= READ_BUFFER_SIZE,
                self.read_buf@.subrange(self.buf_start as int, start_end as int) == pending,
                forall|j: int| 0 <= j < i ==> self.read_buf@[start_end + j] == data@[j],
                self.buf_start == old(self).buf_start || self.buf_start == 0,
                self.local_settings == old(self).local_settings,
                self.remote_settings == old(self).remote_settings,
                self.encoder_table_size == old(self).encoder_table_size,
                self.conn_send_window == old(self).conn_send_window,
                self.conn_recv_window == old(self).conn_recv_window,
                self.next_stream_id == old(self).next_stream_id,
                self.settings_ack_pending == old(self).settings_ack_pending,
                self.handshake == old(self).handshake,
                self.going_away == old(self).going_away,
            decreases data.len() - i,
        {
            let ghost before = self.read_buf@;
            let capacity = self.read_buf.len();
            assert(self.buf_end < capacity);
            self.read_buf[self.buf_end] = data[i];
            assert(self.read_buf@.len() == before.len());
            assert(self.read_buf@.subrange(self.buf_start as int, start_end as int) =~= before.subrange(
                self.buf_start as int,
                start_end as int,
            ));
            self.buf_end += 1;
            i += 1;
        }
        assert(self@.pending =~= pending + data@);
    }

    /// The frame at the start of the pending bytes: what its header
    /// announces, if the header is whole and the payload has arrived.
    pub open spec fn pending_frame(pending: Seq<u8>) -> Option<(FrameHeader, Seq<u8>)> {
        if pending.len() < 9 {
            None
        } else if pending.len() < 9 + FrameHeader::parse(pending).length {
            None
        } else {
            Some((FrameHeader::parse(pending), pending.subrange(9, 9 + FrameHeader::parse(pending).length)))
        }
    }

    /// Takes the next frame out of the pending bytes: its header and its
    /// payload. `Ok(None)` tells that more bytes are needed. A frame
    /// whose payload is longer than the client's settings allow is an
    /// error, and nothing is consumed.
    pub fn next_frame(&mut self) -> (r: Result<Option<(FrameHeader, Vec<u8>)>, Http2Error>)
        requires
            old(self).wf(),
        ensures
            final(self).wf(),
            old(self)@.pending.len() >= 9 && FrameHeader::parse(old(self)@.pending).length > old(
                self,
            )@.local.max_frame_size ==> r == Err::<Option<(FrameHeader, Vec<u8>)>, Http2Error>(
                Http2Error::FrameSize,
            ) && final(self)@ == old(self)@,
            !(old(self)@.pending.len() >= 9 && FrameHeader::parse(old(self)@.pending).length > old(
                self,
            )@.local.max_frame_size) ==> match Self::pending_frame(old(self)@.pending) {
                Some((header, payload)) => {
                    &&& r matches Ok(Some((h, p)))
                    &&& h == header
                    &&& p@ == payload
                    &&& final(self)@ == (ClientModel {
                        pending: old(self)@.pending.skip(9 + header.length),
                        ..old(self)@
                    })
                },
                None => r matches Ok(None) && final(self)@ == old(self)@,
            },
    {
        let available = self.buf_end - self.buf_start;
        if available < FRAME_HEADER_SIZE {
            return Ok(None);
        }
        let pending = vstd::slice::slice_subrange(self.read_buf.as_slice(), self.buf_start, self.buf_end);
        let header = match FrameHeader::decode(pending) {
            Ok(h) => h,
            Err(e) => { return Err(e); },
        };
        if header.length > self.local_settings.max_frame_size {
            return Err(Http2Error::FrameSize);
        }
        let length = header.length as usize;
        if available - FRAME_HEADER_SIZE < length {
            return Ok(None);
        }
        let payload = vstd::slice::slice_to_vec(
            vstd::slice::slice_subrange(pending, FRAME_HEADER_SIZE, FRAME_HEADER_SIZE + length),
        );
        let ghost before = self@.pending;
        self.buf_start += FRAME_HEADER_SIZE + length;
        assert(self@.pending =~= before.skip(9 + header.length));
        if self.buf_start > COMPACT_THRESHOLD {
            self.compact_buffer();
        }
        Ok(Some((header, payload)))
    }

    /// Hands out the id of the next stream: odd ids from 1 on. After a
    /// GOAWAY of the server the connection takes no new stream. Once the
    /// ids up to 2^31 - 1 are used, no stream can be opened either.
    pub fn allocate_stream_id(&mut self) -> (r: Result<u32, Http2Error>)
        requires
            old(self).wf(),
        ensures
            final(self).wf(),
            match r {
                Ok(id) => {
                    &&& !old(self)@.going_away
                    &&& id == old(self)@.next_stream_id
                    &&& id <= MAX_STREAM_ID
                    &&& id % 2 == 1
                    &&& final(self)@ == (ClientModel { next_stream_id: (id + 2) as nat, ..old(self)@ })
                },
                Err(e) => {
                    &&& final(self)@ == old(self)@
                    &&& if old(self)@.going_away {
                        e == Http2Error::ConnectionClosed
                    } else {
                        e == Http2Error::StreamIdsExhausted && old(self)@.next_stream_id > MAX_STREAM_ID
                    }
                },
            },
    {
        if self.going_away {
            return Err(Http2Error::ConnectionClosed);
        }
        if self.next_stream_id > MAX_STREAM_ID {
            return Err(Http2Error::StreamIdsExhausted);
        }
        let id = self.next_stream_id;
        self.next_stream_id = id + 2;
        Ok(id)
    }

    /// Reserves room in the send window for the next DATA frame of a body
    /// of which `remaining` bytes are left, and tells how many of them the
    /// frame carries: as many as the server's maximum frame size allows.
    /// Where the window has less room than that, nothing is reserved.
    pub fn reserve_send(&mut self, remaining: usize) -> (r: Result<usize, Http2Error>)
        requires
            old(self).wf(),
        ensures
            final(self).wf(),
            match r {
                Ok(n) => {
                    &&& n == if remaining <= old(self)@.remote.max_frame_size {
                        remaining
                    } else {
                        old(self)@.remote.max_frame_size as usize
                    }
                    &&& n <= old(self)@.send_window
                    &&& final(self)@ == (ClientModel {
                        send_window: old(self)@.send_window - n,
                        ..old(self)@
                    })
                },
                Err(e) => {
                    &&& e == Http2Error::WindowExhausted
                    &&& old(self)@.send_window < remaining
                    &&& old(self)@.send_window < old(self)@.remote.max_frame_size
                    &&& final(self)@ == old(self)@
                },
            },
    {
        let limit = self.remote_settings.max_frame_size as usize;
        let chunk = if remaining <= limit {
            remaining
        } else {
            limit
        };
        if chunk > self.conn_send_window as usize {
            return Err(Http2Error::WindowExhausted);
        }
        self.conn_send_window -= chunk as i32;
        Ok(chunk)
    }

    /// Takes account of a DATA frame of `len` bytes: the receive window
    /// shrinks by that much. Once it has fallen below half its initial
    /// size it is filled up again, and the room added is returned: it is
    /// to be announced to the server in a WINDOW_UPDATE.
    pub fn on_data(&mut self, len: usize) -> (r: Option<u32>)
        requires
            old(self).wf(),
            len <= MAX_FRAME_SIZE_LIMIT,
        ensures
            final(self).wf(),
            match r {
                Some(increment) => {
                    &&& old(self)@.recv_window - len < 32767
                    &&& increment == 65535 - (old(self)@.recv_window - len)
                    &&& final(self)@ == (ClientModel { recv_window: 65535, ..old(self)@ })
                },
                None => {
                    &&& old(self)@.recv_window - len >= 32767
                    &&& final(self)@ == (ClientModel {
                        recv_window: old(self)@.recv_window - len,
                        ..old(self)@
                    })
                },
            },
    {
        let window: i32 = self.conn_recv_window - len as i32;
        if window < (CONNECTION_WINDOW_SIZE as i32) / 2 {
            let increment: i32 = CONNECTION_WINDOW_SIZE as i32 - window;
            self.conn_recv_window = window + increment;
            Some(increment as u32)
        } else {
            self.conn_recv_window = window;
            None
        }
    }

    /// Takes account of a WINDOW_UPDATE for the connection: the send
    /// window grows by the increment. An increment of zero, or one that
    /// takes the window beyond 2^31 - 1, is an error and changes nothing.
    /// Updates for single streams are not kept here.
    pub fn on_window_update(&mut self, stream_id: u32, increment: u32) -> (r: Result<(), Http2Error>)
        requires
            old(self).wf(),
        ensures
            final(self).wf(),
            match r {
                Ok(()) => {
                    &&& increment > 0
                    &&& final(self)@ == (ClientModel {
                        send_window: if stream_id == 0 {
                            old(self)@.send_window + increment
                        } else {
                            old(self)@.send_window
                        },
                        ..old(self)@
                    })
                    &&& final(self)@.send_window <= MAX_WINDOW
                },
                Err(e) => {
                    &&& e == Http2Error::FlowControl
                    &&& (increment == 0 || (stream_id == 0 && old(self)@.send_window + increment
                        > MAX_WINDOW))
                    &&& final(self)@ == old(self)@
                },
            },
    {
        if increment == 0 {
            return Err(Http2Error::FlowControl);
        }
        if stream_id == 0 {
            if increment > MAX_WINDOW as u32 || self.conn_send_window > MAX_WINDOW - increment as i32 {
                return Err(Http2Error::FlowControl);
            }
            self.conn_send_window += increment as i32;
        }
        Ok(())
    }

    /// Applies the entries of the server's SETTINGS. The table size goes
    /// to the header encoder as well. A maximum frame size outside 2^14 to
    /// 2^24 - 1, or an initial window beyond 2^31 - 1, is an error; the
    /// entries before it stay applied.
    pub fn apply_server_settings(&mut self, settings: &[(u16, u32)]) -> (r: Result<(), Http2Error>)
        requires
            old(self).wf(),
        ensures
            final(self).wf(),
            final(self)@.local == old(self)@.local,
            final(self)@.pending == old(self)@.pending,
            final(self)@.send_window == old(self)@.send_window,
            final(self)@.recv_window == old(self)@.recv_window,
            final(self)@.next_stream_id == old(self)@.next_stream_id,
            final(self)@.settings_ack_pending == old(self)@.settings_ack_pending,
            final(self)@.handshake == old(self)@.handshake,
            final(self)@.going_away == old(self)@.going_away,
            r is Ok <==> settings_are_valid(settings@),
            r is Ok ==> final(self)@.remote == old(self)@.remote.with_entries(settings@),
            r is Ok ==> final(self)@.encoder_table_size == table_size_after(
                old(self)@.encoder_table_size,
                settings@,
            ),
    {
        let mut i: usize = 0;
        assert(settings@.subrange(0, 0) =~= Seq::empty());
        while i < settings.len()
            invariant
                i <= settings.len(),
                self.wf(),
                self@.local == old(self)@.local,
                self@.pending == old(self)@.pending,
                self@.send_window == old(self)@.send_window,
                self@.recv_window == old(self)@.recv_window,
                self@.next_stream_id == old(self)@.next_stream_id,
                self@.settings_ack_pending == old(self)@.settings_ack_pending,
                self@.handshake == old(self)@.handshake,
                self@.going_away == old(self)@.going_away,
                forall|j: int| 0 <= j < i ==> #[trigger] entry_is_valid(settings@[j]),
                self@.remote == old(self)@.remote.with_entries(settings@.subrange(0, i as int)),
                self@.encoder_table_size == table_size_after(
                    old(self)@.encoder_table_size,
                    settings@.subrange(0, i as int),
                ),
            decreases settings.len() - i,
        {
            let (id, value) = settings[i];
            assert(settings@.subrange(0, i + 1).drop_last() =~= settings@.subrange(0, i as int));
            if id == SETTINGS_MAX_FRAME_SIZE && (value < MAX_FRAME_SIZE || value > MAX_FRAME_SIZE_LIMIT) {
                assert(!entry_is_valid(settings@[i as int]));
                return Err(Http2Error::Protocol("SETTINGS_MAX_FRAME_SIZE out of range".to_owned()));
            }
            if id == SETTINGS_INITIAL_WINDOW_SIZE && value > MAX_WINDOW as u32 {
                assert(!entry_is_valid(settings@[i as int]));
                return Err(Http2Error::FlowControl);
            }
            if id == SETTINGS_HEADER_TABLE_SIZE {
                self.encoder_table_size = value;
            }
            self.remote_settings.apply(id, value);
            i += 1;
        }
        assert(settings@.subrange(0, settings.len() as int) =~= settings@);
        Ok(())
    }
}

/// Whether every entry of the server's SETTINGS is acceptable.
pub open spec fn settings_are_valid(entries: Seq<(u16, u32)>) -> bool {
    forall|i: int| 0 <= i < entries.len() ==> #[trigger] entry_is_valid(entries[i])
}

/// Whether an entry of the server's SETTINGS is acceptable.
pub open spec fn entry_is_valid(entry: (u16, u32)) -> bool {
    &&& entry.0 == SETTINGS_MAX_FRAME_SIZE ==> MAX_FRAME_SIZE <= entry.1 <= MAX_FRAME_SIZE_LIMIT
    &&& entry.0 == SETTINGS_INITIAL_WINDOW_SIZE ==> entry.1 <= MAX_WINDOW
}

/// The table size of the header encoder after a list of settings: the
/// last header table size among them.
pub open spec fn table_size_after(size: u32, entries: Seq<(u16, u32)>) -> u32
    decreases entries.len(),
{
    if entries.len() == 0 {
        size
    } else if entries.last().0 == SETTINGS_HEADER_TABLE_SIZE {
        entries.last().1
    } else {
        table_size_after(size, entries.drop_last())
    }
}

/// The values of a list of frames.
pub open spec fn frames_view(frames: Seq<Frame>) -> Seq<FrameModel> {
    Seq::new(frames.len(), |i: int| frames[i]@)
}

/// Mathematical value of a frame.
pub enum FrameModel {
    Data { stream_id: u32, end_stream: bool, data: Seq<u8> },
    Headers { stream_id: u32, end_stream: bool, end_headers: bool, header_block: Seq<u8> },
    Settings { ack: bool, settings: Seq<(u16, u32)> },
    WindowUpdate { stream_id: u32, increment: u32 },
    Ping { ack: bool, data: Seq<u8> },
    GoAway { last_stream_id: u32, error_code: u32 },
    RstStream { stream_id: u32, error_code: u32 },
    Continuation { stream_id: u32, end_headers: bool, header_block: Seq<u8> },
    Unknown { frame_type: u8 },
}

impl View for Frame {
    type V = FrameModel;

    open spec fn view(&self) -> FrameModel {
        match self {
            Frame::Data { stream_id, end_stream, data } => FrameModel::Data {
                stream_id: *stream_id,
                end_stream: *end_stream,
                data: data@,
            },
            Frame::Headers { stream_id, end_stream, end_headers, header_block } => FrameModel::Headers {
                stream_id: *stream_id,
                end_stream: *end_stream,
                end_headers: *end_headers,
                header_block: header_block@,
            },
            Frame::Settings { ack, settings } => FrameModel::Settings { ack: *ack, settings: settings@ },
            Frame::WindowUpdate { stream_id, increment } => FrameModel::WindowUpdate {
                stream_id: *stream_id,
                increment: *increment,
            },
            Frame::Ping { ack, data } => FrameModel::Ping { ack: *ack, data: data@ },
            Frame::GoAway { last_stream_id, error_code } => FrameModel::GoAway {
                last_stream_id: *last_stream_id,
                error_code: *error_code,
            },
            Frame::RstStream { stream_id, error_code } => FrameModel::RstStream {
                stream_id: *stream_id,
                error_code: *error_code,
            },
            Frame::Continuation { stream_id, end_headers, header_block } => FrameModel::Continuation {
                stream_id: *stream_id,
                end_headers: *end_headers,
                header_block: header_block@,
            },
            Frame::Unknown { frame_type } => FrameModel::Unknown { frame_type: *frame_type },
        }
    }
}

/// The frames to send in answer to a PING: the same data with the
/// acknowledgement flag, unless the PING is an answer itself.
pub open spec fn ping_answer(ack: bool, data: Seq<u8>) -> Seq<FrameModel> {
    if ack {
        Seq::empty()
    } else {
        seq![FrameModel::Ping { ack: true, data }]
    }
}

/// The acknowledgement of the peer's SETTINGS.
pub open spec fn settings_ack() -> Seq<FrameModel> {
    seq![FrameModel::Settings { ack: true, settings: Seq::empty() }]
}

fn ack_frames() -> (r: Vec<Frame>)
    ensures
        frames_view(r@) == settings_ack(),
{
    let mut out: Vec<Frame> = Vec::new();
    out.push(Frame::Settings { ack: true, settings: Vec::new() });
    assert(frames_view(out@) =~= settings_ack());
    out
}

fn pong_frames(ack: bool, data: [u8; 8]) -> (r: Vec<Frame>)
    ensures
        frames_view(r@) == ping_answer(ack, data@),
{
    let mut out: Vec<Frame> = Vec::new();
    if !ack {
        out.push(Frame::Ping { ack: true, data });
    }
    assert(frames_view(out@) =~= ping_answer(ack, data@));
    out
}

fn no_frames() -> (r: Vec<Frame>)
    ensures
        frames_view(r@) == Seq::<FrameModel>::empty(),
{
    let out: Vec<Frame> = Vec::new();
    assert(frames_view(out@) =~= Seq::<FrameModel>::empty());
    out
}

impl H2cClient {
    /// How far the handshake has come.
    pub fn handshake_state(&self) -> (r: Handshake)
        ensures
            r == self@.handshake,
    {
        self.handshake
    }

    /// Takes a frame received during the handshake and answers with the
    /// frames to send.
    ///
    /// The first frame must be the server's SETTINGS: they are applied and
    /// acknowledged. After that the acknowledgement of the client's
    /// SETTINGS ends the handshake. Until it comes, a PING is answered, a
    /// WINDOW_UPDATE is taken account of, a GOAWAY is noted, so that no
    /// new stream is opened afterwards, and other frames are skipped:
    /// none of these ends the wait.
    pub fn handshake_step(&mut self, frame: Frame) -> (r: Result<Vec<Frame>, Http2Error>)
        requires
            old(self).wf(),
        ensures
            final(self).wf(),
            final(self)@.local == old(self)@.local,
            final(self)@.pending == old(self)@.pending,
            final(self)@.recv_window == old(self)@.recv_window,
            final(self)@.next_stream_id == old(self)@.next_stream_id,
            final(self)@.going_away == (old(self)@.going_away || (old(self)@.handshake == Handshake::AwaitAck
                && frame@ is GoAway)),
            old(self)@.handshake == Handshake::AwaitSettings && frame@ is Settings && !frame@->Settings_ack
                ==> (r is Ok <==> settings_are_valid(frame@->Settings_settings)),
            old(self)@.handshake == Handshake::AwaitSettings && frame@ is Settings && !frame@->Settings_ack
                && r is Ok ==> {
                &&& frames_view(r->Ok_0@) == settings_ack()
                &&& final(self)@.handshake == Handshake::AwaitAck
                &&& final(self)@.remote == old(self)@.remote.with_entries(frame@->Settings_settings)
            },
            old(self)@.handshake == Handshake::AwaitSettings && !(frame@ is Settings
                && !frame@->Settings_ack) ==> {
                &&& r is Err
                &&& r->Err_0 is Protocol
                &&& final(self)@ == old(self)@
            },
            old(self)@.handshake == Handshake::AwaitAck && frame@ is Settings && frame@->Settings_ack ==> {
                &&& r matches Ok(send)
                &&& frames_view(send@) == Seq::<FrameModel>::empty()
                &&& final(self)@ == (ClientModel {
                    handshake: Handshake::Done,
                    settings_ack_pending: false,
                    ..old(self)@
                })
            },
            old(self)@.handshake == Handshake::AwaitAck && frame@ is Ping ==> {
                &&& r matches Ok(send)
                &&& frames_view(send@) == ping_answer(frame@->Ping_ack, frame@->Ping_data)
                &&& final(self)@ == old(self)@
            },
            old(self)@.handshake == Handshake::AwaitAck && frame@ is WindowUpdate ==> {
                &&& r is Ok <==> frame@->WindowUpdate_increment > 0 && !(frame@->WindowUpdate_stream_id == 0
                    && old(self)@.send_window + frame@->WindowUpdate_increment > MAX_WINDOW)
                &&& final(self)@.handshake == Handshake::AwaitAck
            },
            old(self)@.handshake == Handshake::AwaitAck && frame@ is GoAway ==> {
                &&& r matches Ok(send)
                &&& frames_view(send@) == Seq::<FrameModel>::empty()
                &&& final(self)@ == (ClientModel { going_away: true, ..old(self)@ })
            },
            old(self)@.handshake == Handshake::AwaitAck && !(frame@ is Settings && frame@->Settings_ack)
                && !(frame@ is Ping) && !(frame@ is WindowUpdate) && !(frame@ is GoAway) ==> {
                &&& r matches Ok(send)
                &&& frames_view(send@) == Seq::<FrameModel>::empty()
                &&& final(self)@ == old(self)@
            },
            old(self)@.handshake == Handshake::Done ==> {
                &&& r matches Ok(send)
                &&& frames_view(send@) == Seq::<FrameModel>::empty()
                &&& final(self)@ == old(self)@
            },
    {
        match self.handshake {
            Handshake::AwaitSettings => match frame {
                Frame::Settings { ack: false, settings } => {
                    let ghost entries = settings@;
                    let list = settings.as_slice();
                    assert(list@ == entries);
                    let applied = self.apply_server_settings(list);
                    match applied {
                        Ok(()) => {
                            self.handshake = Handshake::AwaitAck;
                            Ok(ack_frames())
                        },
                        Err(e) => Err(e),
                    }
                },
                _ => Err(Http2Error::Protocol("Expected SETTINGS frame".to_owned())),
            },
            Handshake::AwaitAck => match frame {
                Frame::Settings { ack: true, settings: _ } => {
                    self.settings_ack_pending = false;
                    self.handshake = Handshake::Done;
                    Ok(no_frames())
                },
                Frame::Ping { ack, data } => Ok(pong_frames(ack, data)),
                Frame::WindowUpdate { stream_id, increment } => {
                    match self.on_window_update(stream_id, increment) {
                        Ok(()) => Ok(no_frames()),
                        Err(e) => Err(e),
                    }
                },
                Frame::GoAway { last_stream_id: _, error_code: _ } => {
                    self.going_away = true;
                    Ok(no_frames())
                },
                _ => Ok(no_frames()),
            },
            Handshake::Done => Ok(no_frames()),
        }
    }

    /// Takes the decoded headers of a HEADERS frame received while the
    /// answer on `stream_id` is awaited. Headers of other streams are
    /// skipped. Returns whether the answer is complete.
    pub fn on_headers(
        &self,
        stream_id: u32,
        response: &mut H2cResponse,
        frame_stream: u32,
        end_stream: bool,
        headers: Vec<(Vec<u8>, Vec<u8>)>,
    ) -> (done: bool)
        ensures
            done == (frame_stream == stream_id && end_stream),
            final(response)@ == if frame_stream == stream_id {
                with_headers(old(response)@, header_list(headers@))
            } else {
                old(response)@
            },
    {
        if frame_stream != stream_id {
            return false;
        }
        response.add_headers(headers);
        end_stream
    }

    /// Takes a frame received while the answer on `stream_id` is awaited,
    /// and answers with the frames to send.
    ///
    /// - DATA of the stream is appended to the body and counted against
    ///   the receive window; when the window is filled up again, a
    ///   WINDOW_UPDATE goes out for the connection and one for the stream.
    ///   DATA with the end-of-stream flag completes the answer.
    /// - PING is answered.
    /// - SETTINGS are applied and acknowledged.
    /// - WINDOW_UPDATE is taken account of.
    /// - GOAWAY ends the connection for new streams. The answer is still
    ///   awaited where the server says that it handles the stream; where
    ///   it does not, the connection is closed for this request, which is
    ///   an error.
    /// - RST_STREAM of the stream closes the stream, which is an error.
    /// - Everything else is skipped. The header block of a HEADERS frame
    ///   has to be decoded first and goes to `on_headers`.
    pub fn on_frame(&mut self, stream_id: u32, response: &mut H2cResponse, frame: Frame) -> (r: Result<
        Step,
        Http2Error,
    >)
        requires
            old(self).wf(),
        ensures
            final(self).wf(),
            final(self)@.local == old(self)@.local,
            final(self)@.pending == old(self)@.pending,
            final(self)@.next_stream_id == old(self)@.next_stream_id,
            final(self)@.handshake == old(self)@.handshake,
            final(self)@.going_away == (old(self)@.going_away || frame@ is GoAway),
            final(response)@.status == old(response)@.status,
            final(response)@.headers == old(response)@.headers,
            frame@ is Data && frame@->Data_stream_id != stream_id ==> {
                &&& r matches Ok(step)
                &&& !step.done
                &&& frames_view(step.send@) == Seq::<FrameModel>::empty()
                &&& final(self)@ == old(self)@
                &&& final(response)@ == old(response)@
            },
            frame@ is Data && frame@->Data_stream_id == stream_id && frame@->Data_data.len()
                > MAX_FRAME_SIZE_LIMIT ==> {
                &&& r == Err::<Step, Http2Error>(Http2Error::FrameSize)
                &&& final(self)@ == old(self)@
                &&& final(response)@ == old(response)@
            },
            frame@ is Data && frame@->Data_stream_id == stream_id && frame@->Data_data.len()
                <= MAX_FRAME_SIZE_LIMIT ==> {
                &&& r matches Ok(step)
                &&& step.done == frame@->Data_end_stream
                &&& final(response)@.body == old(response)@.body + frame@->Data_data
                &&& if old(self)@.recv_window - frame@->Data_data.len() < 32767 {
                    &&& final(self)@.recv_window == 65535
                    &&& frames_view(step.send@) == seq![
                        FrameModel::WindowUpdate {
                            stream_id: 0,
                            increment: (65535 - (old(self)@.recv_window - frame@->Data_data.len())) as u32,
                        },
                        FrameModel::WindowUpdate {
                            stream_id,
                            increment: (65535 - (old(self)@.recv_window - frame@->Data_data.len())) as u32,
                        },
                    ]
                } else {
                    &&& final(self)@.recv_window == old(self)@.recv_window - frame@->Data_data.len()
                    &&& frames_view(step.send@) == Seq::<FrameModel>::empty()
                }
            },
            frame@ is Ping ==> {
                &&& r matches Ok(step)
                &&& !step.done
                &&& frames_view(step.send@) == ping_answer(frame@->Ping_ack, frame@->Ping_data)
                &&& final(self)@ == old(self)@
                &&& final(response)@ == old(response)@
            },
            frame@ is Settings && !frame@->Settings_ack ==> {
                &&& final(response)@ == old(response)@
                &&& r is Ok <==> settings_are_valid(frame@->Settings_settings)
            },
            frame@ is Settings && !frame@->Settings_ack && r is Ok ==> {
                &&& !r->Ok_0.done
                &&& frames_view(r->Ok_0.send@) == settings_ack()
                &&& final(self)@.remote == old(self)@.remote.with_entries(frame@->Settings_settings)
            },
            frame@ is WindowUpdate ==> {
                &&& final(response)@ == old(response)@
                &&& r is Ok <==> frame@->WindowUpdate_increment > 0 && !(frame@->WindowUpdate_stream_id == 0
                    && old(self)@.send_window + frame@->WindowUpdate_increment > MAX_WINDOW)
                &&& r matches Ok(step) ==> {
                    &&& !step.done
                    &&& frames_view(step.send@) == Seq::<FrameModel>::empty()
                    &&& final(self)@.send_window == if frame@->WindowUpdate_stream_id == 0 {
                        old(self)@.send_window + frame@->WindowUpdate_increment
                    } else {
                        old(self)@.send_window
                    }
                }
            },
            frame@ is GoAway ==> {
                &&& final(self)@ == (ClientModel { going_away: true, ..old(self)@ })
                &&& final(response)@ == old(response)@
                &&& if stream_id <= frame@->GoAway_last_stream_id {
                    &&& r matches Ok(step)
                    &&& !step.done
                    &&& frames_view(step.send@) == Seq::<FrameModel>::empty()
                } else {
                    r == Err::<Step, Http2Error>(Http2Error::ConnectionClosed)
                }
            },
            frame@ is RstStream ==> {
                &&& final(self)@ == old(self)@
                &&& final(response)@ == old(response)@
                &&& if frame@->RstStream_stream_id == stream_id {
                    r == Err::<Step, Http2Error>(
                        Http2Error::StreamClosed { stream_id, error_code: frame@->RstStream_error_code },
                    )
                } else {
                    &&& r matches Ok(step)
                    &&& !step.done
                    &&& frames_view(step.send@) == Seq::<FrameModel>::empty()
                }
            },
            frame@ is Headers || frame@ is Continuation || frame@ is Unknown || (frame@ is Settings
                && frame@->Settings_ack) ==> {
                &&& r matches Ok(step)
                &&& !step.done
                &&& frames_view(step.send@) == Seq::<FrameModel>::empty()
                &&& final(self)@ == old(self)@
                &&& final(response)@ == old(response)@
            },
    {
        match frame {
            Frame::Data { stream_id: sid, end_stream, data } => {
                if sid != stream_id {
                    return Ok(Step { done: false, send: no_frames() });
                }
                if data.len() > MAX_FRAME_SIZE_LIMIT as usize {
                    return Err(Http2Error::FrameSize);
                }
                response.body.extend_from_slice(data.as_slice());
                assert(response.body@ =~= old(response).body@ + data@);
                let mut send: Vec<Frame> = Vec::new();
                match self.on_data(data.len()) {
                    Some(increment) => {
                        send.push(Frame::WindowUpdate { stream_id: 0, increment });
                        send.push(Frame::WindowUpdate { stream_id, increment });
                        assert(frames_view(send@) =~= seq![
                            FrameModel::WindowUpdate { stream_id: 0, increment },
                            FrameModel::WindowUpdate { stream_id, increment },
                        ]);
                    },
                    None => {
                        assert(frames_view(send@) =~= Seq::<FrameModel>::empty());
                    },
                }
                Ok(Step { done: end_stream, send })
            },
            Frame::Ping { ack, data } => Ok(Step { done: false, send: pong_frames(ack, data) }),
            Frame::Settings { ack: false, settings } => {
                let ghost entries = settings@;
                let list = settings.as_slice();
                assert(list@ == entries);
                let applied = self.apply_server_settings(list);
                match applied {
                    Ok(()) => Ok(Step { done: false, send: ack_frames() }),
                    Err(e) => Err(e),
                }
            },
            Frame::WindowUpdate { stream_id: sid, increment } => {
                match self.on_window_update(sid, increment) {
                    Ok(()) => Ok(Step { done: false, send: no_frames() }),
                    Err(e) => Err(e),
                }
            },
            Frame::GoAway { last_stream_id, error_code: _ } => {
                self.going_away = true;
                if stream_id <= last_stream_id {
                    Ok(Step { done: false, send: no_frames() })
                } else {
                    Err(Http2Error::ConnectionClosed)
                }
            },
            Frame::RstStream { stream_id: sid, error_code } => {
                if sid == stream_id {
                    Err(Http2Error::StreamClosed { stream_id, error_code })
                } else {
                    Ok(Step { done: false, send: no_frames() })
                }
            },
            _ => Ok(Step { done: false, send: no_frames() }),
        }
    }
}

} // verus!
