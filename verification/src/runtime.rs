//! Buffers, ports, blocks, the flowgraph and its scheduler.

pub mod block;
pub mod buffer;
pub mod inbox;
pub mod message_io;
pub mod pmt;
pub mod run;
pub mod scheduler;
pub mod stream_io;
pub mod topology;
