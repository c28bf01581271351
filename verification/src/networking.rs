//! Bookkeeping for multiplayer roles. No connection is made here: the
//! manager records which roles were taken.

use vstd::prelude::*;

verus! {

/// Why taking a network role failed. Both roles can always be taken, so no
/// function of this module returns one yet.
#[derive(Debug, Clone, Copy, PartialEq, Eq, Structural)]
pub enum NetworkError {
    /// The role cannot be taken.
    Unavailable,
}

/// Records whether this process serves a world, joined one, or both.
pub struct NetworkManager {
    is_server: bool,
    is_client: bool,
}

impl View for NetworkManager {
    type V = (bool, bool);

    /// The pair: whether a server was started, whether a server was joined.
    closed spec fn view(&self) -> (bool, bool) {
        (self.is_server, self.is_client)
    }
}

impl NetworkManager {
    pub fn new() -> (m: Self)
        ensures
            m@ == (false, false),
    {
        Self { is_server: false, is_client: false }
    }

    /// Take the role of a server on a port.
    pub fn start_server(&mut self, _port: u16) -> (r: Result<(), NetworkError>)
        ensures
            r is Ok,
            final(self)@ == (true, old(self)@.1),
    {
        self.is_server = true;
        Ok(())
    }

    /// Take the role of a client of the server at an address.
    pub fn connect_to_server(&mut self, _address: &str) -> (r: Result<(), NetworkError>)
        ensures
            r is Ok,
            final(self)@ == (old(self)@.0, true),
    {
        self.is_client = true;
        Ok(())
    }

    /// Handle what arrived since the last call: nothing arrives yet.
    pub fn update(&mut self)
        ensures
            final(self)@ == old(self)@,
    {
    }

    pub fn is_server(&self) -> (r: bool)
        ensures
            r == self@.0,
    {
        self.is_server
    }

    pub fn is_client(&self) -> (r: bool)
        ensures
            r == self@.1,
    {
        self.is_client
    }
}

impl Default for NetworkManager {
    fn default() -> (m: Self)
        ensures
            m@ == (false, false),
    {
        Self::new()
    }
}

} // verus!
