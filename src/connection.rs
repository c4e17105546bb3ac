//! The bookkeeping of one connection to the remote host: whether it is open,
//! and the frames that go out and come in on it. The byte stream itself
//! belongs to the caller.
use vstd::prelude::*;

use crate::codec::{announced_len, frame_length, frame_of, write_frame};

verus! {

/// Why an operation on a connection failed.
#[derive(Debug, Clone, Copy, PartialEq, Eq, Structural)]
pub enum ConnectionError {
    /// The connection is not open.
    NotConnected,
    /// The payload does not fit in one frame.
    TooLarge,
}

/// One logical session with the remote host.
pub struct Connection {
    pub connected: bool,
}

impl Connection {
    /// A connection that is not open yet.
    pub fn new() -> (r: Connection)
        ensures
            !r.connected,
    {
        Connection { connected: false }
    }

    /// Records that the stream was opened.
    pub fn mark_connected(&mut self)
        ensures
            final(self).connected,
    {
        self.connected = true;
    }

    /// Records that the stream was released. Doing it twice changes nothing.
    pub fn disconnect(&mut self)
        ensures
            !final(self).connected,
    {
        self.connected = false;
    }

    /// The bytes to write for sending `payload` as one frame.
    pub fn frame_outgoing(&self, payload: &[u8]) -> (r: Result<Vec<u8>, ConnectionError>)
        ensures
            match r {
                Ok(b) => self.connected && payload@.len() <= u32::MAX && b@ == frame_of(payload@),
                Err(ConnectionError::NotConnected) => !self.connected,
                Err(ConnectionError::TooLarge) => self.connected && payload@.len() > u32::MAX,
            },
    {
        if !self.connected {
            return Err(ConnectionError::NotConnected);
        }
        if payload.len() > 0xffff_ffff {
            return Err(ConnectionError::TooLarge);
        }
        let mut out: Vec<u8> = Vec::new();
        write_frame(&mut out, payload);
        assert(Seq::<u8>::empty() + frame_of(payload@) =~= frame_of(payload@));
        Ok(out)
    }

    /// The payload length that an incoming frame's four-byte header announces.
    pub fn incoming_length(&self, header: &[u8]) -> (r: Result<u32, ConnectionError>)
        requires
            header@.len() == 4,
        ensures
            match r {
                Ok(n) => self.connected && n as nat == announced_len(header@),
                Err(e) => !self.connected && e == ConnectionError::NotConnected,
            },
    {
        if !self.connected {
            return Err(ConnectionError::NotConnected);
        }
        Ok(frame_length(header))
    }
}

} // verus!
