//! The client-facing pieces that are plain data: connection events, the
//! out-of-band connection callbacks, a connection flag, and the record a
//! symbol resolver fills in for one address.
//!
//! The socket handling of a live client — connecting, retrying, pumping
//! requests — is I/O and lives outside the library; it reports its state
//! through these types.

use vstd::prelude::*;

verus! {

/// What a client connection reports out of band: it came up, it went down,
/// or it carries a packet.
#[derive(Debug)]
pub enum Message {
    Connected,
    Disconnected,
    Packet(crate::query::Packet),
}

/// Callbacks a client host implements to hear about connection changes.
pub trait OobStream {
    fn on_connected(&self);

    fn on_disconnected(&self);
}

/// A boolean flag with explicit reads and writes, such as "the daemon is
/// connected".
#[derive(Debug)]
pub struct Flag(bool);

impl Flag {
    /// The flag's current value.
    pub closed spec fn value(&self) -> bool {
        self.0
    }

    /// A flag holding `v`.
    pub fn new(v: bool) -> (r: Self)
        ensures
            r.value() == v,
    {
        Flag(v)
    }

    /// Sets the flag to `v`.
    pub fn set(&mut self, v: bool)
        ensures
            final(self).value() == v,
    {
        self.0 = v;
    }

    /// Reads the flag.
    pub fn get(&self) -> (r: bool)
        ensures
            r == self.value(),
    {
        self.0
    }
}

/// One address as shown to the user, with whatever the symbol resolver has
/// found for it so far.
#[derive(Debug, Clone)]
pub struct Symbol {
    pub addr: u64,
    pub name: Option<String>,
    pub file: Option<String>,
    pub line: Option<u64>,
    pub sym_addr: Option<u64>,
}

impl Symbol {
    /// A symbol nothing is known about yet but its address.
    pub fn new_unresolved(address: u64) -> (r: Self)
        ensures
            r.addr == address,
            r.name is None,
            r.file is None,
            r.line is None,
            r.sym_addr is None,
    {
        Symbol { addr: address, name: None, file: None, line: None, sym_addr: None }
    }
}

} // verus!
