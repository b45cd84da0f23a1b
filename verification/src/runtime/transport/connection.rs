use vstd::prelude::*;

verus! {

/// A frame read from a session's socket.
pub enum Frame {
    Text(String),
    Binary,
    Ping(Vec<u8>),
    Pong,
    Close,
    Raw,
}

/// What a connection does with a frame.
pub enum Step {
    /// Mark the session alive and hand the text to the dispatcher.
    Deliver(String),
    /// Answer a ping with a pong carrying the same payload.
    Reply(Vec<u8>),
    /// Mark the session alive.
    Touch,
    /// Do nothing.
    Ignore,
    /// End the connection.
    Close,
}

/// Text is delivered, a ping is answered, a pong marks the session alive,
/// a close ends the connection, and binary or raw frames are ignored.
pub fn on_frame(frame: Frame) -> (r: Step)
    ensures
        match frame {
            Frame::Text(t) => r matches Step::Deliver(x) && x@ == t@,
            Frame::Ping(p) => r matches Step::Reply(x) && x@ == p@,
            Frame::Pong => r is Touch,
            Frame::Close => r is Close,
            Frame::Binary => r is Ignore,
            Frame::Raw => r is Ignore,
        },
{
    match frame {
        Frame::Text(t) => Step::Deliver(t),
        Frame::Ping(p) => Step::Reply(p),
        Frame::Pong => Step::Touch,
        Frame::Close => Step::Close,
        Frame::Binary => Step::Ignore,
        Frame::Raw => Step::Ignore,
    }
}

/// A read that would block leaves the connection open; any other read
/// failure ends it.
pub fn on_read_failure(would_block: bool) -> (r: Step)
    ensures
        would_block ==> r is Ignore,
        !would_block ==> r is Close,
{
    if would_block {
        Step::Ignore
    } else {
        Step::Close
    }
}

} // verus!
