//! What is known of a connection from the transport it runs over.

use vstd::prelude::*;

verus! {

/// Who is at the other end, as far as the operating system tells.
#[derive(Debug, Clone, Copy, PartialEq, Eq, Structural)]
pub enum PeerIdentity {
    Pid { pid: u32 },
    Unknown,
}

/// A kind of transport.
#[derive(Debug, Clone, Copy, PartialEq, Eq, Structural)]
pub enum Transport {
    Tcp,
    Uds,
    Npipe,
    Vsock,
}

impl Transport {
    /// The name of the transport.
    pub open spec fn name(self) -> Seq<char> {
        match self {
            Transport::Tcp => "tcp"@,
            Transport::Uds => "uds"@,
            Transport::Npipe => "npipe"@,
            Transport::Vsock => "vsock"@,
        }
    }

    /// The name of the transport.
    pub fn kind(self) -> (name: &'static str)
        ensures
            name@ == self.name(),
    {
        match self {
            Transport::Tcp => "tcp",
            Transport::Uds => "uds",
            Transport::Npipe => "npipe",
            Transport::Vsock => "vsock",
        }
    }

    /// Whether the operating system can say which local process is at the other end.
    pub open spec fn attests(self) -> bool {
        self == Transport::Uds || self == Transport::Npipe
    }

    /// Who is at the other end, given the process that the operating system reports.
    pub fn peer_identity(self, reported: Option<u32>) -> (peer: PeerIdentity)
        ensures
            peer == match reported {
                Some(pid) if self.attests() => PeerIdentity::Pid { pid },
                _ => PeerIdentity::Unknown,
            },
    {
        match (self, reported) {
            (Transport::Uds, Some(pid)) => PeerIdentity::Pid { pid },
            (Transport::Npipe, Some(pid)) => PeerIdentity::Pid { pid },
            _ => PeerIdentity::Unknown,
        }
    }
}

/// What the transports are called.
pub proof fn law_transport_names()
    ensures
        Transport::Tcp.name() == "tcp"@,
        Transport::Uds.name() == "uds"@,
        Transport::Npipe.name() == "npipe"@,
        Transport::Vsock.name() == "vsock"@,
{
}

/// The process at the other end is known over local sockets and pipes only.
pub proof fn law_only_local_transports_attest(transport: Transport)
    ensures
        transport is Uds || transport is Npipe ==> transport.attests(),
        transport is Tcp || transport is Vsock ==> !transport.attests(),
{
}

} // verus!
