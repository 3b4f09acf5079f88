//! How many connections a server serves at a time.

use vstd::pervasive::arbitrary;
use vstd::prelude::*;

verus! {

/// Whether a server serves one connection at a time or many.
#[derive(Clone, Copy, Debug, Eq, PartialEq, Structural)]
pub enum ConnectionMode {
    OneToOne,
    OneToMany,
}

impl Default for ConnectionMode {
    fn default() -> (mode: Self)
        ensures
            mode == ConnectionMode::OneToMany,
    {
        ConnectionMode::OneToMany
    }
}

/// What an attempt to let a connection in brings: a lease, if any, that may be exclusive, and
/// whether an exclusive lease is out afterwards.
pub open spec fn acquired(mode: ConnectionMode, taken: bool) -> (Option<bool>, bool) {
    match mode {
        ConnectionMode::OneToMany => (Some(false), taken),
        ConnectionMode::OneToOne => if taken {
            (None, true)
        } else {
            (Some(true), true)
        },
    }
}

/// Whether an exclusive lease is out after a lease was given back.
pub open spec fn released(taken: bool, exclusive: bool) -> bool {
    taken && !exclusive
}

/// Something that happens at a gate.
pub enum GateEvent {
    /// A connection asks to be let in.
    Acquire,
    /// A lease that is out is given back.
    Release,
}

/// Whether an exclusive lease is out after some events, and how many leases are out. Giving back
/// where no lease is out does not happen.
pub open spec fn gate_after(mode: ConnectionMode, events: Seq<GateEvent>) -> (bool, nat)
    decreases events.len(),
{
    if events.len() == 0 {
        (false, 0)
    } else {
        let (taken, leases) = gate_after(mode, events.drop_last());
        match events.last() {
            GateEvent::Acquire => {
                let (lease, taken) = acquired(mode, taken);
                (taken, leases + if lease is Some { 1nat } else { 0nat })
            },
            GateEvent::Release => if leases == 0 {
                (taken, leases)
            } else {
                (released(taken, mode == ConnectionMode::OneToOne), (leases - 1) as nat)
            },
        }
    }
}

/// One to one means one: whatever happens, no two leases are out at a time, and another connection
/// is let in exactly when none is.
pub proof fn law_one_connection_at_a_time(events: Seq<GateEvent>)
    ensures
        ({
            let (taken, leases) = gate_after(ConnectionMode::OneToOne, events);
            leases <= 1 && (taken <==> leases == 1)
        }),
    decreases events.len(),
{
    if events.len() > 0 {
        law_one_connection_at_a_time(events.drop_last());
    }
}

/// One to many never turns a connection away.
pub proof fn law_many_connections_are_let_in(events: Seq<GateEvent>)
    ensures
        acquired(
            ConnectionMode::OneToMany,
            gate_after(ConnectionMode::OneToMany, events).0,
        ).0 is Some,
{
}

/// Lets connections in. In [`ConnectionMode::OneToOne`] there is at most one at a time.
pub struct ConnectionGate {
    mode: ConnectionMode,
    active: bool,
    identity: Ghost<int>,
}

/// The right to serve a connection, to be given back with [`ConnectionGate::release`] where it came
/// from.
pub struct ConnectionLease {
    sole: bool,
    issuer: Ghost<int>,
}

impl ConnectionLease {
    /// Whether the lease keeps other connections out.
    pub closed spec fn exclusive(&self) -> bool {
        self.sole
    }

    /// The identity of the [`ConnectionGate`] where the lease came from.
    pub closed spec fn gate(&self) -> int {
        self.issuer@
    }
}

impl ConnectionGate {
    pub closed spec fn kind(&self) -> ConnectionMode {
        self.mode
    }

    /// Whether an exclusive lease is out.
    pub closed spec fn taken(&self) -> bool {
        self.active
    }

    /// What tells this one from others. It never changes, and nothing else is known of it, so a
    /// lease that came from one cannot be taken for a lease that came from another.
    pub closed spec fn id(&self) -> int {
        self.identity@
    }

    /// A gate with no lease out.
    pub fn new(mode: ConnectionMode) -> (gate: Self)
        ensures
            gate.kind() == mode,
            !gate.taken(),
    {
        ConnectionGate { mode, active: false, identity: Ghost(arbitrary()) }
    }

    /// Whether one connection is let in at a time or many.
    pub fn mode(&self) -> (mode: ConnectionMode)
        ensures
            mode == self.kind(),
    {
        self.mode
    }

    /// Lets a connection in. One at a time: where an exclusive lease is out, there is none.
    pub fn try_acquire(&mut self) -> (lease: Option<ConnectionLease>)
        ensures
            final(self).kind() == old(self).kind(),
            final(self).id() == old(self).id(),
            lease matches Some(lease) ==> lease.gate() == old(self).id(),
            (
                match lease {
                    Some(lease) => Some(lease.exclusive()),
                    None => None,
                },
                final(self).taken(),
            ) == acquired(old(self).kind(), old(self).taken()),
    {
        match self.mode {
            ConnectionMode::OneToMany => Some(
                ConnectionLease { sole: false, issuer: self.identity },
            ),
            ConnectionMode::OneToOne => {
                if self.active {
                    None
                } else {
                    self.active = true;
                    Some(ConnectionLease { sole: true, issuer: self.identity })
                }
            },
        }
    }

    /// Takes a lease back that came from here.
    pub fn release(&mut self, lease: ConnectionLease)
        requires
            lease.gate() == old(self).id(),
        ensures
            final(self).kind() == old(self).kind(),
            final(self).id() == old(self).id(),
            final(self).taken() == released(old(self).taken(), lease.exclusive()),
    {
        if lease.sole {
            self.active = false;
        }
    }
}

/// A connection is let in exactly where no exclusive lease is out, or where many are served. Then
/// one to one gives an exclusive lease out and one to many never does. Giving an exclusive lease
/// back lets the next connection in; giving another back changes nothing.
pub proof fn law_who_is_let_in(taken: bool)
    ensures
        acquired(ConnectionMode::OneToOne, false) == (Some(true), true),
        acquired(ConnectionMode::OneToOne, true) == (None::<bool>, true),
        acquired(ConnectionMode::OneToMany, taken) == (Some(false), taken),
        !released(taken, true),
        released(taken, false) == taken,
        acquired(ConnectionMode::OneToOne, released(true, true)).0 is Some,
{
}

} // verus!
