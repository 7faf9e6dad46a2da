//! Response buffering: how much of an upstream response is held back before
//! it is sent on to the client.

pub mod buffer;
pub mod config;

pub use buffer::{PushPlan, ReadPlan, ResponseBuffer};
pub use config::{BufferingConfig, BufferingMode};
