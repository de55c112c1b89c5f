//! Streaming a file to the client in chunks of bounded size.
//!
//! The caller reads and writes; after each read and each write it asks
//! here what to do next. One failure ends the transfer: nothing is retried.

use vstd::prelude::*;

verus! {

/// Size of the buffer a file is streamed through, in bytes.
pub const CHUNK_SIZE: usize = 65536;

/// What happened to a transfer last.
#[derive(Clone, Copy, Debug, PartialEq, Eq)]
pub enum StreamEvent {
    /// The header block has been written; nothing has been read yet.
    Started,
    /// A read into the buffer gave this many bytes.
    Read(usize),
    /// A read from the file failed.
    ReadFailed,
    /// The bytes of the last read have all been written.
    Written,
    /// A write to the client failed.
    WriteFailed,
}

/// What a transfer does next.
#[derive(Clone, Copy, Debug, PartialEq, Eq)]
pub enum StreamAction {
    /// Read up to [`CHUNK_SIZE`] bytes from the file.
    Fill,
    /// Write the first `len` bytes of the buffer to the client.
    Forward { len: usize },
    /// Close the connection.
    Finish,
}

/// The next action of a transfer after `event`.
pub open spec fn next_action(event: StreamEvent) -> StreamAction {
    match event {
        StreamEvent::Started => StreamAction::Fill,
        StreamEvent::Read(n) => if n == 0 {
            StreamAction::Finish
        } else if n > CHUNK_SIZE {
            StreamAction::Forward { len: CHUNK_SIZE }
        } else {
            StreamAction::Forward { len: n }
        },
        StreamEvent::Written => StreamAction::Fill,
        StreamEvent::ReadFailed => StreamAction::Finish,
        StreamEvent::WriteFailed => StreamAction::Finish,
    }
}

/// Says what a transfer does after `event`.
///
/// A transfer goes on while reads give bytes and writes succeed. It ends at
/// the end of the file and at the first failure. It never forwards more
/// than one buffer at a time.
pub fn stream_step(event: StreamEvent) -> (action: StreamAction)
    ensures
        action == next_action(event),
        action matches StreamAction::Forward { len } ==> 0 < len <= CHUNK_SIZE,
{
    match event {
        StreamEvent::Started => StreamAction::Fill,
        StreamEvent::Read(n) => {
            if n == 0 {
                StreamAction::Finish
            } else if n > CHUNK_SIZE {
                StreamAction::Forward { len: CHUNK_SIZE }
            } else {
                StreamAction::Forward { len: n }
            }
        },
        StreamEvent::Written => StreamAction::Fill,
        StreamEvent::ReadFailed => StreamAction::Finish,
        StreamEvent::WriteFailed => StreamAction::Finish,
    }
}

} // verus!
