//! Blocks that come with the runtime.

pub mod fir;
pub mod iir;
pub mod message_source;
