//! HTTP/2 settings.

use vstd::prelude::*;

verus! {

/// Default size of the header compression table.
pub const HEADER_TABLE_SIZE: u32 = 4096;

/// Default number of concurrent streams.
pub const MAX_CONCURRENT_STREAMS: u32 = 100;

/// Default initial window of a stream.
pub const INITIAL_WINDOW_SIZE: u32 = 65535;

/// Default and smallest maximum frame size.
pub const MAX_FRAME_SIZE: u32 = 16384;

/// Largest maximum frame size that a peer may set.
pub const MAX_FRAME_SIZE_LIMIT: u32 = 16777215;

/// Default limit of the size of a header list.
pub const MAX_HEADER_LIST_SIZE: u32 = 65536;

/// Initial window of a connection.
pub const CONNECTION_WINDOW_SIZE: u32 = 65535;

/// Identifier of the setting `SETTINGS_HEADER_TABLE_SIZE`.
pub const SETTINGS_HEADER_TABLE_SIZE: u16 = 1;

/// Identifier of the setting `SETTINGS_ENABLE_PUSH`.
pub const SETTINGS_ENABLE_PUSH: u16 = 2;

/// Identifier of the setting `SETTINGS_MAX_CONCURRENT_STREAMS`.
pub const SETTINGS_MAX_CONCURRENT_STREAMS: u16 = 3;

/// Identifier of the setting `SETTINGS_INITIAL_WINDOW_SIZE`.
pub const SETTINGS_INITIAL_WINDOW_SIZE: u16 = 4;

/// Identifier of the setting `SETTINGS_MAX_FRAME_SIZE`.
pub const SETTINGS_MAX_FRAME_SIZE: u16 = 5;

/// Identifier of the setting `SETTINGS_MAX_HEADER_LIST_SIZE`.
pub const SETTINGS_MAX_HEADER_LIST_SIZE: u16 = 6;

/// The settings of one side of a connection.
#[derive(Debug, Clone, Copy, PartialEq, Eq, Structural)]
pub struct Http2Settings {
    /// Size of the header compression table.
    pub header_table_size: u32,
    /// Whether server push is allowed.
    pub enable_push: bool,
    /// Number of concurrent streams.
    pub max_concurrent_streams: u32,
    /// Initial window of a stream.
    pub initial_window_size: u32,
    /// Largest frame payload.
    pub max_frame_size: u32,
    /// Limit of the size of a header list.
    pub max_header_list_size: u32,
}

impl Http2Settings {
    /// The settings that hold before any are exchanged.
    pub open spec fn initial() -> Self {
        Http2Settings {
            header_table_size: HEADER_TABLE_SIZE,
            enable_push: false,
            max_concurrent_streams: MAX_CONCURRENT_STREAMS,
            initial_window_size: INITIAL_WINDOW_SIZE,
            max_frame_size: MAX_FRAME_SIZE,
            max_header_list_size: MAX_HEADER_LIST_SIZE,
        }
    }

    /// The settings as the entries of a SETTINGS frame, by identifier.
    pub open spec fn entries(self) -> Seq<(u16, u32)> {
        seq![
            (SETTINGS_HEADER_TABLE_SIZE, self.header_table_size),
            (SETTINGS_ENABLE_PUSH, if self.enable_push { 1u32 } else { 0u32 }),
            (SETTINGS_MAX_CONCURRENT_STREAMS, self.max_concurrent_streams),
            (SETTINGS_INITIAL_WINDOW_SIZE, self.initial_window_size),
            (SETTINGS_MAX_FRAME_SIZE, self.max_frame_size),
            (SETTINGS_MAX_HEADER_LIST_SIZE, self.max_header_list_size),
        ]
    }

    /// The settings after one entry of a peer's SETTINGS frame is applied.
    /// Unknown identifiers are ignored.
    pub open spec fn with_entry(self, id: u16, value: u32) -> Self {
        if id == SETTINGS_HEADER_TABLE_SIZE {
            Http2Settings { header_table_size: value, ..self }
        } else if id == SETTINGS_ENABLE_PUSH {
            Http2Settings { enable_push: value != 0, ..self }
        } else if id == SETTINGS_MAX_CONCURRENT_STREAMS {
            Http2Settings { max_concurrent_streams: value, ..self }
        } else if id == SETTINGS_INITIAL_WINDOW_SIZE {
            Http2Settings { initial_window_size: value, ..self }
        } else if id == SETTINGS_MAX_FRAME_SIZE {
            Http2Settings { max_frame_size: value, ..self }
        } else if id == SETTINGS_MAX_HEADER_LIST_SIZE {
            Http2Settings { max_header_list_size: value, ..self }
        } else {
            self
        }
    }

    /// The settings after the entries of a peer's SETTINGS frame are
    /// applied in order.
    pub open spec fn with_entries(self, entries: Seq<(u16, u32)>) -> Self
        decreases entries.len(),
    {
        if entries.len() == 0 {
            self
        } else {
            self.with_entries(entries.drop_last()).with_entry(entries.last().0, entries.last().1)
        }
    }

    /// The entries to send in a SETTINGS frame.
    pub fn encode(&self) -> (r: Vec<(u16, u32)>)
        ensures
            r@ == self.entries(),
    {
        let mut out: Vec<(u16, u32)> = Vec::new();
        out.push((SETTINGS_HEADER_TABLE_SIZE, self.header_table_size));
        out.push((SETTINGS_ENABLE_PUSH, if self.enable_push { 1u32 } else { 0u32 }));
        out.push((SETTINGS_MAX_CONCURRENT_STREAMS, self.max_concurrent_streams));
        out.push((SETTINGS_INITIAL_WINDOW_SIZE, self.initial_window_size));
        out.push((SETTINGS_MAX_FRAME_SIZE, self.max_frame_size));
        out.push((SETTINGS_MAX_HEADER_LIST_SIZE, self.max_header_list_size));
        assert(out@ =~= self.entries());
        out
    }

    /// Applies one entry of a peer's SETTINGS frame.
    pub fn apply(&mut self, id: u16, value: u32)
        ensures
            *final(self) == old(self).with_entry(id, value),
    {
        if id == SETTINGS_HEADER_TABLE_SIZE {
            self.header_table_size = value;
        } else if id == SETTINGS_ENABLE_PUSH {
            self.enable_push = value != 0;
        } else if id == SETTINGS_MAX_CONCURRENT_STREAMS {
            self.max_concurrent_streams = value;
        } else if id == SETTINGS_INITIAL_WINDOW_SIZE {
            self.initial_window_size = value;
        } else if id == SETTINGS_MAX_FRAME_SIZE {
            self.max_frame_size = value;
        } else if id == SETTINGS_MAX_HEADER_LIST_SIZE {
            self.max_header_list_size = value;
        }
    }
}

impl Default for Http2Settings {
    fn default() -> (r: Self)
        ensures
            r == Http2Settings::initial(),
    {
        Http2Settings {
            header_table_size: HEADER_TABLE_SIZE,
            enable_push: false,
            max_concurrent_streams: MAX_CONCURRENT_STREAMS,
            initial_window_size: INITIAL_WINDOW_SIZE,
            max_frame_size: MAX_FRAME_SIZE,
            max_header_list_size: MAX_HEADER_LIST_SIZE,
        }
    }
}

/// Applying the entries that a side sends to the initial settings gives
/// the settings of that side.
pub proof fn lemma_entries_roundtrip(s: Http2Settings)
    ensures
        Http2Settings::initial().with_entries(s.entries()) == s,
{
    let e = s.entries();
    let e5 = e.drop_last();
    let e4 = e5.drop_last();
    let e3 = e4.drop_last();
    let e2 = e3.drop_last();
    let e1 = e2.drop_last();
    let e0 = e1.drop_last();
    assert(e0.len() == 0);
    let i = Http2Settings::initial();
    assert(i.with_entries(e0) == i);
    assert(i.with_entries(e1) == i.with_entries(e0).with_entry(e1.last().0, e1.last().1));
    assert(i.with_entries(e2) == i.with_entries(e1).with_entry(e2.last().0, e2.last().1));
    assert(i.with_entries(e3) == i.with_entries(e2).with_entry(e3.last().0, e3.last().1));
    assert(i.with_entries(e4) == i.with_entries(e3).with_entry(e4.last().0, e4.last().1));
    assert(i.with_entries(e5) == i.with_entries(e4).with_entry(e5.last().0, e5.last().1));
    assert(i.with_entries(e) == i.with_entries(e5).with_entry(e.last().0, e.last().1));
}

} // verus!
