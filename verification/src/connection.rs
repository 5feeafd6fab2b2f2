//! Whether the client at the other end of a connection is still there.
use vstd::prelude::*;

verus! {

// The states of a TCP connection as Linux numbers them.
pub const TCP_CLOSE: u8 = 7;

pub const TCP_CLOSE_WAIT: u8 = 8;

pub const TCP_LAST_ACK: u8 = 9;

pub const TCP_CLOSING: u8 = 11;

/// Whether a connection is closed, or closing from the other end; one whose state cannot be read
/// is closed.
pub open spec fn closed_state(state: Option<u8>) -> bool {
    match state {
        Some(s) => s == 7 || s == 8 || s == 9 || s == 11,
        None => true,
    }
}

/// Whether a connection with this state is closed.
pub fn tcp_state_is_closed(state: Option<u8>) -> (r: bool)
    ensures
        r == closed_state(state),
{
    match state {
        Some(s) => s == TCP_CLOSE_WAIT || s == TCP_LAST_ACK || s == TCP_CLOSE || s == TCP_CLOSING,
        None => true,
    }
}

/// A connection, by the descriptor of its socket.
#[derive(Debug, Clone)]
pub struct ConnectionHandle {
    pub raw_fd: i32,
    pub disconnected: bool,
}

impl ConnectionHandle {
    pub fn new(raw_fd: i32) -> (r: ConnectionHandle)
        ensures
            r.raw_fd == raw_fd,
            !r.disconnected,
    {
        ConnectionHandle { raw_fd, disconnected: false }
    }

    /// Whether the state of the socket has to be read.
    pub fn needs_check(&self) -> (r: bool)
        ensures
            r == !self.disconnected,
    {
        !self.disconnected
    }

    /// Whether the client is gone, given the state of its socket. Once it is gone it stays gone,
    /// whatever the state says.
    pub fn is_client_gone(&mut self, state: Option<u8>) -> (r: bool)
        ensures
            r == (old(self).disconnected || closed_state(state)),
            final(self).raw_fd == old(self).raw_fd,
            final(self).disconnected == r,
    {
        if self.disconnected {
            return true;
        }
        if tcp_state_is_closed(state) {
            self.disconnected = true;
            true
        } else {
            false
        }
    }
}

/// A connection is closed exactly in the states closed, close wait, last acknowledgement and
/// closing, or where no state can be read; not while it is set up, open, or closed from this end
/// alone.
pub proof fn law_which_states_are_closed(s: u8)
    ensures
        closed_state(None),
        7 <= s <= 9 ==> closed_state(Some(s)),
        closed_state(Some(11)),
        s < 7 || s == 10 || s > 11 ==> !closed_state(Some(s)),
        TCP_CLOSE == 7 && TCP_CLOSE_WAIT == 8 && TCP_LAST_ACK == 9 && TCP_CLOSING == 11,
{
}

} // verus!
