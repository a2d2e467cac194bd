//! Control messages that wake a block.

use vstd::prelude::*;

verus! {

/// A control message addressed to the inbox of one block.
#[derive(Debug, Clone, Copy, PartialEq, Eq, Structural)]
pub enum AsyncMessage {
    /// The state of a buffer attached to the block changed: data was
    /// produced for it or space was freed for it.
    Notify,
    /// The producer feeding input port `input_id` will never supply more data.
    StreamInputDone { input_id: usize },
    /// The consumer draining output port `output_id` will never accept more data.
    StreamOutputDone { output_id: usize },
    /// A message was queued in the mailbox of message input `port_id`.
    Mail { port_id: usize },
}

} // verus!
