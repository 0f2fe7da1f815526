//! The transports that a listener can speak.

use vstd::prelude::*;

verus! {

/// The transport of a listener.
#[derive(Debug, Clone, Copy, PartialEq, Eq, Structural)]
pub enum ProtocolType {
    Tcp,
    Tls,
    Ws,
    Wss,
}

impl ProtocolType {
    /// The lower-case name of the transport, as configuration files spell it.
    pub open spec fn name(self) -> Seq<char> {
        match self {
            ProtocolType::Tcp => "tcp"@,
            ProtocolType::Tls => "tls"@,
            ProtocolType::Ws => "ws"@,
            ProtocolType::Wss => "wss"@,
        }
    }

    /// The name of the transport.
    pub fn as_str(&self) -> (s: &'static str)
        ensures
            s@ == self.name(),
    {
        match self {
            ProtocolType::Tcp => "tcp",
            ProtocolType::Tls => "tls",
            ProtocolType::Ws => "ws",
            ProtocolType::Wss => "wss",
        }
    }
}

} // verus!
