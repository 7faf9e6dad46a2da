//! Buffering settings.

use vstd::prelude::*;
use std::path::PathBuf;
use crate::text::{lowercase, str_eq, to_lowercase};

verus! {

#[verifier::external_type_specification]
#[verifier::external_body]
pub struct ExPathBuf(PathBuf);

/// `PathBuf::clone` returns an equal path.
pub assume_specification[ <PathBuf as Clone>::clone ](p: &PathBuf) -> (r: PathBuf)
    ensures
        r == *p,
;

/// How a response travels from the upstream to the client.
#[derive(Clone, Copy, Debug, PartialEq, Eq, Structural)]
pub enum BufferingMode {
    /// Bytes are passed on as they arrive. Light on memory, but a slow
    /// client keeps the upstream connection busy.
    Streaming,
    /// The whole response is buffered before the first byte is sent, so the
    /// upstream connection is free early.
    Full,
    /// Small responses are buffered in full, large ones are streamed.
    Adaptive,
}

impl Default for BufferingMode {
    fn default() -> (r: Self)
        ensures
            r == BufferingMode::Streaming,
    {
        BufferingMode::Streaming
    }
}

impl BufferingMode {
    /// The mode that a lower-case name denotes.
    pub open spec fn named(name: Seq<char>) -> Option<Self> {
        if name == "streaming"@ {
            Some(Self::Streaming)
        } else if name == "full"@ {
            Some(Self::Full)
        } else if name == "adaptive"@ {
            Some(Self::Adaptive)
        } else {
            None
        }
    }

    /// The mode that a name in a configuration file denotes; the name is
    /// lower-cased first. `None` for an unknown name.
    pub fn parse(name: &str) -> (r: Option<Self>)
        ensures
            r == Self::named(lowercase(name@)),
    {
        let lower = to_lowercase(name);
        if str_eq(lower.as_str(), "streaming") {
            Some(Self::Streaming)
        } else if str_eq(lower.as_str(), "full") {
            Some(Self::Full)
        } else if str_eq(lower.as_str(), "adaptive") {
            Some(Self::Adaptive)
        } else {
            None
        }
    }
}

/// Default cap of the memory buffer: 10 MiB.
pub fn default_max_memory_buffer() -> (r: usize)
    ensures
        r == 10 * 1024 * 1024,
{
    10 * 1024 * 1024
}

/// Default threshold of the adaptive mode: 1 MiB.
pub fn default_adaptive_threshold() -> (r: usize)
    ensures
        r == 1024 * 1024,
{
    1024 * 1024
}

/// Default cap of the disk buffer: 100 MiB.
pub fn default_max_disk_buffer() -> (r: usize)
    ensures
        r == 100 * 1024 * 1024,
{
    100 * 1024 * 1024
}

/// Default client write timeout: 60 seconds.
pub fn default_client_write_timeout() -> (r: u64)
    ensures
        r == 60,
{
    60
}

/// Default of switches that are on unless set otherwise.
pub fn default_true() -> (r: bool)
    ensures
        r,
{
    true
}

/// Buffering settings.
#[derive(Clone, Debug)]
pub struct BufferingConfig {
    /// Buffering mode.
    pub mode: BufferingMode,
    /// Cap of the memory buffer in bytes. What exceeds it spills to disk,
    /// or is streamed where no disk buffer is configured.
    pub max_memory_buffer: usize,
    /// In adaptive mode, responses with a declared length up to this many
    /// bytes are buffered in full; longer ones are streamed.
    pub adaptive_threshold: usize,
    /// Directory for spill files; with none, nothing spills to disk.
    pub disk_buffer_path: Option<PathBuf>,
    /// Cap of the disk buffer in bytes.
    pub max_disk_buffer: usize,
    /// Seconds a client may take to accept bytes before it is cut off.
    pub client_write_timeout_secs: u64,
    /// Whether the response headers are held back with the body.
    pub buffer_headers: bool,
}

impl Default for BufferingConfig {
    fn default() -> (r: Self)
        ensures
            r.mode == BufferingMode::Streaming,
            r.max_memory_buffer == 10 * 1024 * 1024,
            r.adaptive_threshold == 1024 * 1024,
            r.disk_buffer_path is None,
            r.max_disk_buffer == 100 * 1024 * 1024,
            r.client_write_timeout_secs == 60,
            r.buffer_headers,
    {
        Self {
            mode: BufferingMode::Streaming,
            max_memory_buffer: default_max_memory_buffer(),
            adaptive_threshold: default_adaptive_threshold(),
            disk_buffer_path: None,
            max_disk_buffer: default_max_disk_buffer(),
            client_write_timeout_secs: default_client_write_timeout(),
            buffer_headers: true,
        }
    }
}

impl BufferingConfig {
    /// Whether a response with the declared length `content_length` is
    /// buffered in full: never when streaming, always in full mode, and in
    /// adaptive mode exactly when the length is declared and within the
    /// threshold.
    pub open spec fn spec_should_buffer(&self, content_length: Option<usize>) -> bool {
        match self.mode {
            BufferingMode::Streaming => false,
            BufferingMode::Full => true,
            BufferingMode::Adaptive => match content_length {
                Some(len) => len <= self.adaptive_threshold,
                None => false,
            },
        }
    }

    /// Whether any buffering takes place.
    pub fn is_enabled(&self) -> (r: bool)
        ensures
            r == (self.mode != BufferingMode::Streaming),
    {
        self.mode != BufferingMode::Streaming
    }

    /// Whether a response with the declared length `content_length`
    /// (`None` for a chunked response) is to be buffered in full.
    pub fn should_buffer(&self, content_length: Option<usize>) -> (r: bool)
        ensures
            r == self.spec_should_buffer(content_length),
    {
        match self.mode {
            BufferingMode::Streaming => false,
            BufferingMode::Full => true,
            BufferingMode::Adaptive => match content_length {
                Some(len) => len <= self.adaptive_threshold,
                None => false,
            },
        }
    }

    /// Whether a disk buffer is configured.
    pub fn disk_buffer_available(&self) -> (r: bool)
        ensures
            r == self.disk_buffer_path is Some,
    {
        self.disk_buffer_path.is_some()
    }
}

} // verus!
