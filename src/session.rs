use vstd::prelude::*;

use crate::registry::{clones_of, deregistered, other_conns, registered, ChannelKey, Registry};
use crate::relay::{on_data, DeliveryPlan};

verus! {

/// Where a connection stands: accepted, with at least one open channel, or
/// finished. A closed connection stays closed.
#[derive(Clone, Copy, Debug, PartialEq, Eq, Structural)]
pub enum Phase {
    Connected,
    ChannelOpen,
    Closed,
}

/// The state that one accepted connection owns: its identity, its phase and
/// the channels it has opened and not yet closed.
pub struct Connection {
    id: u64,
    phase: Phase,
    channels: Vec<u32>,
}

/// Hands out connection ids in increasing order; an id is never issued twice.
pub struct ConnectionCounter {
    next: u64,
}

/// Position of `x` in `v`, if it is there.
fn position(v: &Vec<u32>, x: u32) -> (r: Option<usize>)
    ensures
        match r {
            Some(i) => i < v@.len() && v@[i as int] == x,
            None => !v@.contains(x),
        },
{
    let mut i: usize = 0;
    while i < v.len()
        invariant
            i <= v@.len(),
            forall|j: int| 0 <= j < i ==> v@[j] != x,
        decreases v@.len() - i,
    {
        if v[i] == x {
            return Some(i);
        }
        i = i + 1;
    }
    None
}

impl ConnectionCounter {
    pub closed spec fn next_id(&self) -> u64 {
        self.next
    }

    pub fn new() -> (r: Self)
        ensures
            r.next_id() == 0,
    {
        ConnectionCounter { next: 0 }
    }

    /// A fresh connection context with the next id, or `None` once every id
    /// has been issued.
    pub fn accept(&mut self) -> (r: Option<Connection>)
        ensures
            old(self).next_id() < u64::MAX ==> {
                &&& r is Some
                &&& r->0.wf()
                &&& r->0.id() == old(self).next_id()
                &&& r->0.phase() == Phase::Connected
                &&& r->0.channels().len() == 0
                &&& final(self).next_id() == old(self).next_id() + 1
            },
            old(self).next_id() == u64::MAX ==> r is None && final(self).next_id() == old(
                self,
            ).next_id(),
    {
        if self.next == u64::MAX {
            None
        } else {
            let id = self.next;
            self.next = self.next + 1;
            Some(Connection::new(id))
        }
    }
}

impl Connection {
    pub closed spec fn id(&self) -> u64 {
        self.id
    }

    pub closed spec fn phase(&self) -> Phase {
        self.phase
    }

    pub closed spec fn channels(&self) -> Seq<u32> {
        self.channels@
    }

    /// Channels are listed once each, and the phase agrees with them: only a
    /// connection in `ChannelOpen` has open channels, and it has at least one.
    pub open spec fn wf(&self) -> bool {
        &&& self.channels().no_duplicates()
        &&& (self.phase() == Phase::ChannelOpen <==> self.channels().len() > 0)
    }

    pub fn new(id: u64) -> (r: Self)
        ensures
            r.wf(),
            r.id() == id,
            r.phase() == Phase::Connected,
            r.channels().len() == 0,
    {
        Connection { id, phase: Phase::Connected, channels: Vec::new() }
    }

    pub fn get_id(&self) -> (r: u64)
        ensures
            r == self.id(),
    {
        self.id
    }

    pub fn get_phase(&self) -> (r: Phase)
        ensures
            r == self.phase(),
    {
        self.phase
    }

    /// A channel opened on this connection: it is registered under this
    /// connection's id and the connection moves to `ChannelOpen`. A closed
    /// connection refuses it and nothing changes.
    pub fn open_channel<H>(&mut self, registry: &mut Registry<H>, chan: u32, handle: H) -> (r: bool)
        requires
            old(self).wf(),
            old(registry).wf(),
        ensures
            final(self).wf(),
            final(registry).wf(),
            final(self).id() == old(self).id(),
            r == (old(self).phase() != Phase::Closed),
            r ==> {
                &&& final(registry).entries() == registered(
                    old(registry).entries(),
                    ChannelKey { conn: old(self).id(), chan },
                    handle,
                )
                &&& final(self).phase() == Phase::ChannelOpen
                &&& final(self).channels().contains(chan)
                &&& final(self).channels().to_set() == old(self).channels().to_set().insert(chan)
            },
            !r ==> *final(self) == *old(self) && *final(registry) == *old(registry),
    {
        if self.phase == Phase::Closed {
            return false;
        }
        registry.register(ChannelKey { conn: self.id, chan }, handle);
        match position(&self.channels, chan) {
            Some(_) => {
                assert(self.channels@.to_set() =~= self.channels@.to_set().insert(chan));
            },
            None => {
                let ghost before = self.channels@;
                self.channels.push(chan);
                assert(self.channels@.to_set() =~= before.to_set().insert(chan)) by {
                    assert forall|x: u32| self.channels@.contains(x) <==> before.contains(x) || x
                        == chan by {
                        if self.channels@.contains(x) && x != chan {
                            let j = choose|j: int| 0 <= j < self.channels@.len() && self.channels@[j] == x;
                            assert(before[j] == x);
                        }
                        if x == chan {
                            assert(self.channels@[before.len() as int] == chan);
                        }
                        if before.contains(x) {
                            let j = choose|j: int| 0 <= j < before.len() && before[j] == x;
                            assert(self.channels@[j] == x);
                        }
                    }
                }
            },
        }
        self.phase = Phase::ChannelOpen;
        assert(self.channels@.contains(chan)) by {
            assert(self.channels@.to_set().contains(chan));
        }
        true
    }

    /// Data received on channel `chan`: relayed as `on_data` does, while the
    /// channel is open on this connection; otherwise `None`.
    pub fn data<H: Clone>(&self, registry: &Registry<H>, chan: u32, payload: &[u8]) -> (r: Option<
        DeliveryPlan<H>,
    >)
        requires
            self.wf(),
        ensures
            r is Some <==> self.channels().contains(chan),
            r is Some ==> {
                &&& r->0.echo == (ChannelKey { conn: self.id(), chan })
                &&& r->0.payload@ == payload@
                &&& clones_of(
                    other_conns(registry.entries(), self.id()),
                    r->0.targets@,
                )
            },
    {
        match position(&self.channels, chan) {
            Some(_) => Some(on_data(registry, ChannelKey { conn: self.id, chan }, payload)),
            None => None,
        }
    }

    /// Channel `chan` closed: its entry leaves the registry and the channel
    /// leaves this connection; with no channel left the connection is closed.
    /// Returns whether `chan` was open; if it was not, nothing changes.
    pub fn close_channel<H>(&mut self, registry: &mut Registry<H>, chan: u32) -> (r: bool)
        requires
            old(self).wf(),
            old(registry).wf(),
        ensures
            final(self).wf(),
            final(registry).wf(),
            final(self).id() == old(self).id(),
            r == old(self).channels().contains(chan),
            r ==> {
                &&& final(registry).entries() == deregistered(
                    old(registry).entries(),
                    ChannelKey { conn: old(self).id(), chan },
                )
                &&& !final(self).channels().contains(chan)
                &&& final(self).channels().to_set() == old(self).channels().to_set().remove(chan)
                &&& final(self).phase() == (if final(self).channels().len() == 0 {
                    Phase::Closed
                } else {
                    Phase::ChannelOpen
                })
            },
            !r ==> *final(self) == *old(self) && *final(registry) == *old(registry),
    {
        match position(&self.channels, chan) {
            None => false,
            Some(i) => {
                let _removed = registry.deregister(ChannelKey { conn: self.id, chan });
                let ghost before = self.channels@;
                let _gone = self.channels.remove(i);
                proof {
                    let after = self.channels@;
                    assert forall|a: int, b: int|
                        0 <= a < after.len() && 0 <= b < after.len() && a != b implies after[a]
                        != after[b] by {
                        let oa = if a < i {
                            a
                        } else {
                            a + 1
                        };
                        let ob = if b < i {
                            b
                        } else {
                            b + 1
                        };
                        assert(before[oa] == after[a] && before[ob] == after[b]);
                    }
                    assert forall|x: u32| after.contains(x) <==> before.contains(x) && x != chan by {
                        if after.contains(x) {
                            let j = choose|j: int| 0 <= j < after.len() && after[j] == x;
                            let oj = if j < i {
                                j
                            } else {
                                j + 1
                            };
                            assert(before[oj] == x);
                        }
                        if before.contains(x) && x != chan {
                            let j = choose|j: int| 0 <= j < before.len() && before[j] == x;
                            assert(j != i);
                            if j < i {
                                assert(after[j] == x);
                            } else {
                                assert(after[j - 1] == x);
                            }
                        }
                    }
                    assert(after.to_set() =~= before.to_set().remove(chan));
                }
                if self.channels.len() == 0 {
                    self.phase = Phase::Closed;
                }
                true
            },
        }
    }

    /// The connection ended: every channel it registered leaves the registry,
    /// and it is closed for good.
    pub fn close<H>(&mut self, registry: &mut Registry<H>)
        requires
            old(registry).wf(),
        ensures
            final(self).wf(),
            final(registry).wf(),
            final(self).id() == old(self).id(),
            final(self).phase() == Phase::Closed,
            final(self).channels().len() == 0,
            final(registry).entries() == other_conns(old(registry).entries(), old(self).id()),
    {
        registry.deregister_connection(self.id);
        self.channels = Vec::new();
        self.phase = Phase::Closed;
    }
}

} // verus!
