//! The registry of one party: its directory of peers with the state of each
//! connection, and its counters. Each collective operation is decided here;
//! the caller does the reading and writing and reports what it read.

use crate::directory::{directory_fault, spec_directory_fault, ConfigFault, Endpoint, HostAddr};
use crate::exchange::{
    encode_frame, gather, lemma_frame_round_trip, lemma_king_aggregation_round_trip, payloads_of,
    remote_lengths_are, spec_frame, spec_gather, spec_unframe,
};
use crate::mesh::{mesh_plan, spec_link_step, spec_mesh_plan, lemma_plan_links_every_peer, MeshStep};
use crate::stats::{fan_bytes, Stats};
use vstd::prelude::*;
use vstd::slice::slice_to_vec;

verus! {

/// Why an operation of the registry was refused.
#[derive(Clone, Copy, Debug, PartialEq, Eq, Structural)]
pub enum NetError {
    /// The directory cannot be used.
    Config { fault: ConfigFault },
    /// A peer other than the party itself has no connection.
    NotConnected,
    /// A list of payloads does not hold one payload for each party.
    WrongPeerCount,
    /// The payloads of one exchange differ in length.
    UnequalLengths,
    /// The party's role asks for a value that the caller did not supply.
    MissingPayloads,
    /// The caller supplied a value that the party's role has no use for.
    UnexpectedPayloads,
}

/// One party of the directory.
#[derive(Clone, Copy, Debug, PartialEq, Eq, Structural)]
pub struct Peer {
    /// Its position in the directory, counted from zero.
    pub id: usize,
    /// Where it listens.
    pub addr: Endpoint,
    /// Whether the connection to it stands.
    pub connected: bool,
}

impl Default for Peer {
    fn default() -> (p: Peer)
        ensures
            p == (Peer {
                id: 0,
                addr: Endpoint { host: HostAddr::V4 { ip: 0x7F00_0001 }, port: 8000 },
                connected: false,
            }),
    {
        Peer {
            id: 0,
            addr: Endpoint { host: HostAddr::V4 { ip: 0x7F00_0001 }, port: 8000 },
            connected: false,
        }
    }
}

/// The directory, the party's own id in it, and the counters.
#[derive(Debug)]
pub struct Connections {
    pub id: usize,
    pub peers: Vec<Peer>,
    pub stats: Stats,
}

impl Default for Connections {
    fn default() -> (ch: Connections)
        ensures
            ch.id == 0,
            ch.peers@.len() == 0,
            ch.stats == Stats::zero(),
            ch.wf(),
    {
        Connections { id: 0, peers: Vec::new(), stats: Stats::default() }
    }
}

/// Whether `step` gives the party its connection with `peer`.
pub open spec fn step_links(step: MeshStep, peer: int) -> bool {
    step == (MeshStep::Connect { peer: peer as usize }) || step == (MeshStep::Accept {
        peer: peer as usize,
    })
}

/// Whether one of `done` gives the party its connection with `peer`.
pub open spec fn steps_link(done: Seq<MeshStep>, peer: int) -> bool {
    exists|k: int| 0 <= k < done.len() && step_links(#[trigger] done[k], peer)
}

/// Whether every buffer holds as many bytes as the first.
pub open spec fn equal_lengths(payloads: Seq<Seq<u8>>) -> bool {
    forall|i: int| 0 <= i < payloads.len() ==> (#[trigger] payloads[i]).len() == payloads[0].len()
}

/// The frames that the king writes: for each party but itself the frame of
/// that party's payload.
pub open spec fn spec_king_frames(payloads: Seq<Seq<u8>>) -> Seq<Seq<u8>> {
    Seq::new(
        payloads.len(),
        |i: int|
            if i == 0 {
                Seq::<u8>::empty()
            } else {
                spec_frame(payloads[i])
            },
    )
}

/// What the king writes to party `i` carries exactly the payload assigned to
/// that party: a party that reads the prefix and then as many bytes as it
/// announces holds its entry of the king's list.
pub proof fn lemma_king_distribution_round_trip(payloads: Seq<Seq<u8>>, i: int)
    requires
        0 < i < payloads.len(),
        payloads[i].len() <= u64::MAX,
    ensures
        spec_unframe(spec_king_frames(payloads)[i]) == Some(payloads[i]),
{
    lemma_frame_round_trip(payloads[i]);
}

/// The payloads of a list of buffers that may be absent.
pub open spec fn payload_lists(buffers: Option<Vec<Vec<u8>>>) -> Option<Seq<Seq<u8>>> {
    match buffers {
        Some(list) => Some(payloads_of(list@)),
        None => None,
    }
}

/// The payload of a buffer that may be absent.
pub open spec fn payload_of(buffer: Option<Vec<u8>>) -> Option<Seq<u8>> {
    match buffer {
        Some(bytes) => Some(bytes@),
        None => None,
    }
}

/// Whether every buffer but the one at `own` holds `m` bytes.
fn remote_lengths_ok(received: &Vec<Vec<u8>>, own: usize, m: usize) -> (ok: bool)
    ensures
        ok == remote_lengths_are(payloads_of(received@), own as int, m as nat),
{
    let mut i: usize = 0;
    while i < received.len()
        invariant
            i <= received@.len(),
            forall|j: int| 0 <= j < i && j != own ==> (#[trigger] payloads_of(received@)[j]).len() == m,
        decreases received@.len() - i,
    {
        if i != own && received[i].len() != m {
            assert(payloads_of(received@)[i as int].len() != m);
            return false;
        }
        i = i + 1;
    }
    true
}

impl Connections {
    /// The ids are the positions, the party's own id is one of them, and
    /// the party holds no connection to itself.
    pub open spec fn wf(&self) -> bool {
        &&& forall|i: int| 0 <= i < self.peers@.len() ==> (#[trigger] self.peers@[i]).id == i
        &&& self.peers@.len() > 0 ==> self.id < self.peers@.len() && !self.peers@[self.id as int].connected
    }

    /// Whether the registry is well formed.
    pub fn is_well_formed(&self) -> (ok: bool)
        ensures
            ok == self.wf(),
    {
        let mut i: usize = 0;
        while i < self.peers.len()
            invariant
                i <= self.peers@.len(),
                forall|j: int| 0 <= j < i ==> (#[trigger] self.peers@[j]).id == j,
            decreases self.peers@.len() - i,
        {
            if self.peers[i].id != i {
                return false;
            }
            i = i + 1;
        }
        self.peers.len() == 0 || (self.id < self.peers.len() && !self.peers[self.id].connected)
    }

    /// The number of parties.
    pub open spec fn n(&self) -> nat {
        self.peers@.len()
    }

    /// A directory is loaded and every party but this one has its connection.
    pub open spec fn is_connected(&self) -> bool {
        &&& self.peers@.len() > 0
        &&& forall|i: int|
            0 <= i < self.peers@.len() && i != self.id ==> (#[trigger] self.peers@[i]).connected
    }

    /// `self` and `other` have the same directory, with every connection in
    /// the same state, and the same own id.
    pub open spec fn same_mesh(&self, other: &Connections) -> bool {
        self.id == other.id && self.peers@ == other.peers@
    }

    /// The party of `entries` with the id `own`, no connection made yet.
    pub open spec fn loaded(&self, entries: Seq<Option<Endpoint>>, own: usize) -> bool {
        &&& self.id == own
        &&& self.peers@.len() == entries.len()
        &&& forall|i: int|
            0 <= i < entries.len() ==> #[trigger] self.peers@[i] == (Peer {
                id: i as usize,
                addr: entries[i]->0,
                connected: false,
            })
    }

    /// Loads the directory. `entries` holds, for each non-blank line in order,
    /// the address that the line gives, or `None` where it gives none. The
    /// directory replaces the one held before; the counters stay. A directory
    /// with a fault is refused and changes nothing.
    pub fn init_from_path(&mut self, entries: &Vec<Option<Endpoint>>, id: usize) -> (r: Result<
        (),
        NetError,
    >)
        requires
            old(self).wf(),
        ensures
            final(self).wf(),
            final(self).stats == old(self).stats,
            match r {
                Ok(()) => spec_directory_fault(entries@, id as nat) is None && final(self).loaded(
                    entries@,
                    id,
                ),
                Err(e) => spec_directory_fault(entries@, id as nat) == Some(e->fault) && e
                    is Config && final(self).same_mesh(old(self)),
            },
    {
        match directory_fault(entries, id) {
            Some(fault) => Err(NetError::Config { fault }),
            None => {
                let mut peers: Vec<Peer> = Vec::new();
                let mut i: usize = 0;
                while i < entries.len()
                    invariant
                        i <= entries@.len(),
                        peers@.len() == i,
                        forall|k: int| 0 <= k < entries@.len() ==> entries@[k] is Some,
                        forall|k: int|
                            0 <= k < i ==> #[trigger] peers@[k] == (Peer {
                                id: k as usize,
                                addr: entries@[k]->0,
                                connected: false,
                            }),
                    decreases entries@.len() - i,
                {
                    let addr: Endpoint = entries[i].unwrap();
                    peers.push(Peer { id: i, addr, connected: false });
                    i = i + 1;
                }
                self.peers = peers;
                self.id = id;
                Ok(())
            },
        }
    }

    /// The steps by which this party establishes its part of the mesh, in
    /// order.
    pub fn connect_to_all(&self) -> (plan: Vec<MeshStep>)
        ensures
            plan@ == spec_mesh_plan(self.n(), self.id as nat),
    {
        mesh_plan(self.peers.len(), self.id)
    }

    /// Records that the connection with `peer` stands. Refused, with nothing
    /// changed, where `peer` is no other party of the directory.
    pub fn attach(&mut self, peer: usize) -> (done: bool)
        requires
            old(self).wf(),
        ensures
            final(self).wf(),
            final(self).id == old(self).id,
            final(self).stats == old(self).stats,
            done == (peer < old(self).n() && peer != old(self).id),
            done ==> final(self).peers@ == old(self).peers@.update(
                peer as int,
                (Peer { connected: true, ..old(self).peers@[peer as int] }),
            ),
            !done ==> final(self).peers@ == old(self).peers@,
    {
        if peer < self.peers.len() && peer != self.id {
            let p: Peer = self.peers[peer];
            self.peers.set(peer, Peer { id: p.id, addr: p.addr, connected: true });
            true
        } else {
            false
        }
    }

    /// Whether every party but this one has its connection.
    pub fn mesh_complete(&self) -> (complete: bool)
        ensures
            complete == self.is_connected(),
    {
        if self.peers.len() == 0 {
            return false;
        }
        let mut i: usize = 0;
        while i < self.peers.len()
            invariant
                i <= self.peers@.len(),
                forall|j: int| 0 <= j < i && j != self.id ==> (#[trigger] self.peers@[j]).connected,
            decreases self.peers@.len() - i,
        {
            if i != self.id && !self.peers[i].connected {
                return false;
            }
            i = i + 1;
        }
        true
    }

    /// Records the connections that the steps `done` have made, and checks
    /// that the mesh is complete. After the whole plan of this party it is.
    pub fn finish_connect(&mut self, done: &Vec<MeshStep>) -> (r: Result<(), NetError>)
        requires
            old(self).wf(),
        ensures
            final(self).wf(),
            final(self).id == old(self).id,
            final(self).stats == old(self).stats,
            final(self).peers@.len() == old(self).peers@.len(),
            forall|i: int|
                0 <= i < old(self).n() ==> #[trigger] final(self).peers@[i] == (Peer {
                    connected: old(self).peers@[i].connected || (i != old(self).id && steps_link(
                        done@,
                        i,
                    )),
                    ..old(self).peers@[i]
                }),
            r is Ok <==> final(self).is_connected(),
            r is Err ==> r == Err::<(), NetError>(NetError::NotConnected),
            old(self).n() > 0 && done@ == spec_mesh_plan(old(self).n(), old(self).id as nat)
                ==> r is Ok,
    {
        let mut k: usize = 0;
        while k < done.len()
            invariant
                k <= done@.len(),
                self.wf(),
                self.id == old(self).id,
                self.stats == old(self).stats,
                self.peers@.len() == old(self).peers@.len(),
                forall|i: int|
                    0 <= i < old(self).n() ==> #[trigger] self.peers@[i] == (Peer {
                        connected: old(self).peers@[i].connected || (i != old(self).id
                            && steps_link(done@.subrange(0, k as int), i)),
                        ..old(self).peers@[i]
                    }),
            decreases done@.len() - k,
        {
            let ghost before = done@.subrange(0, k as int);
            let ghost after = done@.subrange(0, k as int + 1);
            let ghost step = done@[k as int];
            assert(after[k as int] == step);
            assert forall|i: int| steps_link(before, i) implies steps_link(after, i) by {
                let w = choose|w: int| 0 <= w < before.len() && step_links(#[trigger] before[w], i);
                assert(step_links(after[w], i));
            }
            assert forall|i: int| steps_link(after, i) implies steps_link(before, i) || step_links(
                step,
                i,
            ) by {
                let w = choose|w: int| 0 <= w < after.len() && step_links(#[trigger] after[w], i);
                if w < k {
                    assert(step_links(before[w], i));
                }
            }
            assert forall|i: int| step_links(step, i) implies steps_link(after, i) by {
                assert(step_links(after[k as int], i));
            }
            match done[k] {
                MeshStep::Connect { peer } => {
                    self.attach(peer);
                },
                MeshStep::Accept { peer } => {
                    self.attach(peer);
                },
                _ => {},
            }
            k = k + 1;
        }
        assert(done@.subrange(0, k as int) =~= done@);
        let n: usize = self.peers.len();
        proof {
            if old(self).n() > 0 && done@ == spec_mesh_plan(old(self).n(), old(self).id as nat) {
                assert forall|i: int|
                    0 <= i < self.peers@.len() && i != self.id implies (
                #[trigger] self.peers@[i]).connected by {
                    lemma_plan_links_every_peer(self.n(), self.id as nat, i as nat);
                    let step = spec_link_step(self.id as nat, i as nat);
                    let w = choose|w: int| 0 <= w < done@.len() && done@[w] == step;
                    assert(step_links(done@[w], i));
                }
            }
        }
        if n > 0 && self.mesh_complete() {
            Ok(())
        } else {
            Err(NetError::NotConnected)
        }
    }

    /// Whether this party is the king: the party with id 0.
    pub fn am_king(&self) -> (king: bool)
        ensures
            king == (self.id == 0),
    {
        self.id == 0
    }

    /// A copy of the counters as they stand.
    pub fn stats(&self) -> (snapshot: Stats)
        ensures
            snapshot == self.stats,
    {
        self.stats
    }

    /// Drops every connection. The directory and the counters stay.
    pub fn uninit(&mut self)
        requires
            old(self).wf(),
        ensures
            final(self).wf(),
            final(self).id == old(self).id,
            final(self).stats == old(self).stats,
            final(self).peers@.len() == old(self).peers@.len(),
            forall|i: int|
                0 <= i < old(self).n() ==> #[trigger] final(self).peers@[i] == (Peer {
                    connected: false,
                    ..old(self).peers@[i]
                }),
    {
        let mut i: usize = 0;
        while i < self.peers.len()
            invariant
                i <= self.peers@.len(),
                self.id == old(self).id,
                self.stats == old(self).stats,
                self.peers@.len() == old(self).peers@.len(),
                forall|j: int|
                    0 <= j < i ==> #[trigger] self.peers@[j] == (Peer {
                        connected: false,
                        ..old(self).peers@[j]
                    }),
                forall|j: int| i <= j < self.peers@.len() ==> self.peers@[j] == old(self).peers@[j],
            decreases self.peers@.len() - i,
        {
            let p: Peer = self.peers[i];
            self.peers.set(i, Peer { id: p.id, addr: p.addr, connected: false });
            i = i + 1;
        }
    }

    /// Why a broadcast of an `m`-byte payload, with `received` read from the
    /// peers, is refused; `None` where it is not.
    pub open spec fn broadcast_fault(&self, m: nat, received: Seq<Seq<u8>>) -> Option<NetError> {
        if !self.is_connected() {
            Some(NetError::NotConnected)
        } else if received.len() != self.n() {
            Some(NetError::WrongPeerCount)
        } else if !remote_lengths_are(received, self.id as int, m) {
            Some(NetError::UnequalLengths)
        } else {
            None
        }
    }

    /// Completes a broadcast. `received` holds at each peer's id the bytes
    /// read from that peer, as many as `bytes_out` has; what it holds at the
    /// party's own id is not looked at. The result holds each party's payload
    /// at that party's id. Both byte counters grow by the payload's length
    /// for each peer, and the broadcast counter by one. A refused call
    /// changes nothing.
    pub fn broadcast(&mut self, bytes_out: &[u8], received: Vec<Vec<u8>>) -> (r: Result<
        Vec<Vec<u8>>,
        NetError,
    >)
        requires
            old(self).wf(),
            old(self).broadcast_fault(bytes_out@.len(), payloads_of(received@)) is None
                ==> old(self).stats.fits(
                fan_bytes(old(self).n(), bytes_out@.len()),
                fan_bytes(old(self).n(), bytes_out@.len()),
                0,
                1,
            ),
        ensures
            final(self).wf(),
            final(self).same_mesh(old(self)),
            final(self).stats.at_least(old(self).stats),
            match r {
                Ok(all) => {
                    &&& old(self).broadcast_fault(bytes_out@.len(), payloads_of(received@)) is None
                    &&& payloads_of(all@) == spec_gather(
                        old(self).id as int,
                        bytes_out@,
                        payloads_of(received@),
                    )
                    &&& final(self).stats == old(self).stats.plus(
                        fan_bytes(old(self).n(), bytes_out@.len()),
                        fan_bytes(old(self).n(), bytes_out@.len()),
                        0,
                        1,
                    )
                },
                Err(e) => {
                    &&& old(self).broadcast_fault(bytes_out@.len(), payloads_of(received@)) == Some(e)
                    &&& final(self).stats == old(self).stats
                },
            },
    {
        if !self.mesh_complete() {
            return Err(NetError::NotConnected);
        }
        if received.len() != self.peers.len() {
            return Err(NetError::WrongPeerCount);
        }
        if !remote_lengths_ok(&received, self.id, bytes_out.len()) {
            return Err(NetError::UnequalLengths);
        }
        self.stats.record_broadcast(self.peers.len(), bytes_out.len());
        Ok(gather(self.id, bytes_out, received))
    }

    /// Why the king's half or a sender's half of an aggregation is refused;
    /// `None` where it is not.
    pub open spec fn send_to_king_fault(&self, m: nat, received: Option<Seq<Seq<u8>>>) -> Option<
        NetError,
    > {
        if !self.is_connected() {
            Some(NetError::NotConnected)
        } else if self.id == 0 {
            match received {
                None => Some(NetError::MissingPayloads),
                Some(rx) => if rx.len() != self.n() {
                    Some(NetError::WrongPeerCount)
                } else if !remote_lengths_are(rx, 0, m) {
                    Some(NetError::UnequalLengths)
                } else {
                    None
                },
            }
        } else if received is Some {
            Some(NetError::UnexpectedPayloads)
        } else {
            None
        }
    }

    /// Whether the counters have room for an aggregation of `m`-byte
    /// payloads.
    pub open spec fn send_to_king_room(&self, m: nat) -> bool {
        if self.id == 0 {
            self.stats.fits(0, fan_bytes(self.n(), m), 1, 0)
        } else {
            self.stats.fits(m, 0, 1, 0)
        }
    }

    /// The counters after an aggregation of `m`-byte payloads: the king has
    /// received one payload from each peer, any other party has sent one.
    pub open spec fn after_send_to_king(&self, m: nat) -> Stats {
        if self.id == 0 {
            self.stats.plus(0, fan_bytes(self.n(), m), 1, 0)
        } else {
            self.stats.plus(m, 0, 1, 0)
        }
    }

    /// Completes an aggregation at the king. On the king `received` holds at
    /// each peer's id the bytes read from it, and the result is the list of
    /// all payloads by id, the king's own among them. Any other party has
    /// written `bytes_out` to the king, supplies nothing and gets nothing. A
    /// refused call changes nothing.
    pub fn send_to_king(&mut self, bytes_out: &[u8], received: Option<Vec<Vec<u8>>>) -> (r: Result<
        Option<Vec<Vec<u8>>>,
        NetError,
    >)
        requires
            old(self).wf(),
            old(self).send_to_king_fault(bytes_out@.len(), payload_lists(received)) is None ==> old(
                self,
            ).send_to_king_room(bytes_out@.len()),
        ensures
            final(self).wf(),
            final(self).same_mesh(old(self)),
            final(self).stats.at_least(old(self).stats),
            match r {
                Ok(all) => {
                    &&& old(self).send_to_king_fault(bytes_out@.len(), payload_lists(received))
                        is None
                    &&& final(self).stats == old(self).after_send_to_king(bytes_out@.len())
                    &&& all is Some <==> old(self).id == 0
                    &&& all is Some ==> payloads_of(all->0@) == spec_gather(
                        0,
                        bytes_out@,
                        payloads_of(received->0@),
                    )
                },
                Err(e) => {
                    &&& old(self).send_to_king_fault(bytes_out@.len(), payload_lists(received))
                        == Some(e)
                    &&& final(self).stats == old(self).stats
                },
            },
    {
        if !self.mesh_complete() {
            return Err(NetError::NotConnected);
        }
        if self.am_king() {
            match received {
                None => Err(NetError::MissingPayloads),
                Some(rx) => {
                    if rx.len() != self.peers.len() {
                        return Err(NetError::WrongPeerCount);
                    }
                    if !remote_lengths_ok(&rx, 0, bytes_out.len()) {
                        return Err(NetError::UnequalLengths);
                    }
                    let bytes = Stats::fan_out_bytes(self.peers.len(), bytes_out.len());
                    self.stats.record_king_exchange(0, bytes.unwrap());
                    Ok(Some(gather(0, bytes_out, rx)))
                },
            }
        } else {
            if received.is_some() {
                return Err(NetError::UnexpectedPayloads);
            }
            self.stats.record_king_exchange(bytes_out.len() as u64, 0);
            Ok(None)
        }
    }

    /// Why the king's half or a receiver's half of a distribution is
    /// refused; `None` where it is not.
    pub open spec fn recv_from_king_fault(
        &self,
        bytes_out: Option<Seq<Seq<u8>>>,
        received: Option<Seq<u8>>,
    ) -> Option<NetError> {
        if !self.is_connected() {
            Some(NetError::NotConnected)
        } else if self.id == 0 {
            match bytes_out {
                None => Some(NetError::MissingPayloads),
                Some(out) => if received is Some {
                    Some(NetError::UnexpectedPayloads)
                } else if out.len() != self.n() {
                    Some(NetError::WrongPeerCount)
                } else if !equal_lengths(out) {
                    Some(NetError::UnequalLengths)
                } else {
                    None
                },
            }
        } else if bytes_out is Some {
            Some(NetError::UnexpectedPayloads)
        } else if received is None {
            Some(NetError::MissingPayloads)
        } else {
            None
        }
    }

    /// The payload that a distribution hands this party: on the king its own
    /// entry of the list, on any other party what it read.
    pub open spec fn spec_assigned(
        &self,
        bytes_out: Option<Seq<Seq<u8>>>,
        received: Option<Seq<u8>>,
    ) -> Seq<u8> {
        if self.id == 0 {
            bytes_out->0[0]
        } else {
            received->0
        }
    }

    /// Whether the counters have room for a distribution of `m`-byte
    /// payloads.
    pub open spec fn recv_from_king_room(&self, m: nat) -> bool {
        if self.id == 0 {
            self.stats.fits(fan_bytes(self.n(), m), 0, 1, 0)
        } else {
            self.stats.fits(0, m, 1, 0)
        }
    }

    /// The counters after a distribution of `m`-byte payloads, the mirror of
    /// an aggregation: the king has sent one payload to each peer, any other
    /// party has received one.
    pub open spec fn after_recv_from_king(&self, m: nat) -> Stats {
        if self.id == 0 {
            self.stats.plus(fan_bytes(self.n(), m), 0, 1, 0)
        } else {
            self.stats.plus(0, m, 1, 0)
        }
    }

    /// The frames that the king writes in a distribution, by the id of the
    /// party each is for; none for the king itself. Refused where this party
    /// is not the king or the list is not one payload for each party, all of
    /// one length.
    pub fn king_frames(&self, bytes_out: &Vec<Vec<u8>>) -> (r: Result<Vec<Vec<u8>>, NetError>)
        ensures
            match r {
                Ok(frames) => {
                    &&& self.recv_from_king_fault(Some(payloads_of(bytes_out@)), None) is None
                    &&& payloads_of(frames@) == spec_king_frames(payloads_of(bytes_out@))
                },
                Err(e) => self.recv_from_king_fault(Some(payloads_of(bytes_out@)), None) == Some(e),
            },
    {
        if !self.mesh_complete() {
            return Err(NetError::NotConnected);
        }
        if !self.am_king() {
            return Err(NetError::UnexpectedPayloads);
        }
        if bytes_out.len() != self.peers.len() {
            return Err(NetError::WrongPeerCount);
        }
        let m: usize = bytes_out[0].len();
        assert(payloads_of(bytes_out@)[0].len() == m);
        if !remote_lengths_ok(bytes_out, 0, m) {
            assert(!equal_lengths(payloads_of(bytes_out@)));
            return Err(NetError::UnequalLengths);
        }
        assert(equal_lengths(payloads_of(bytes_out@)));
        let mut frames: Vec<Vec<u8>> = Vec::new();
        let mut i: usize = 0;
        while i < bytes_out.len()
            invariant
                i <= bytes_out@.len(),
                frames@.len() == i,
                forall|j: int|
                    0 <= j < i ==> (#[trigger] frames@[j])@ == spec_king_frames(
                        payloads_of(bytes_out@),
                    )[j],
            decreases bytes_out@.len() - i,
        {
            if i == 0 {
                frames.push(Vec::new());
            } else {
                frames.push(encode_frame(bytes_out[i].as_slice()));
            }
            i = i + 1;
        }
        assert(payloads_of(frames@) =~= spec_king_frames(payloads_of(bytes_out@)));
        Ok(frames)
    }

    /// Completes a distribution. The king supplies the list, one payload for
    /// each party and all of one length, and gets its own entry back; any
    /// other party supplies the payload that it read from the king and gets
    /// it back. The byte counters grow by the payloads alone, not by the
    /// length prefixes. A refused call changes nothing.
    pub fn recv_from_king(&mut self, bytes_out: Option<Vec<Vec<u8>>>, received: Option<Vec<u8>>) -> (r:
        Result<Vec<u8>, NetError>)
        requires
            old(self).wf(),
            old(self).recv_from_king_fault(payload_lists(bytes_out), payload_of(received)) is None
                ==> old(self).recv_from_king_room(
                old(self).spec_assigned(payload_lists(bytes_out), payload_of(received)).len(),
            ),
        ensures
            final(self).wf(),
            final(self).same_mesh(old(self)),
            final(self).stats.at_least(old(self).stats),
            match r {
                Ok(mine) => {
                    &&& old(self).recv_from_king_fault(
                        payload_lists(bytes_out),
                        payload_of(received),
                    ) is None
                    &&& mine@ == old(self).spec_assigned(
                        payload_lists(bytes_out),
                        payload_of(received),
                    )
                    &&& final(self).stats == old(self).after_recv_from_king(mine@.len())
                },
                Err(e) => {
                    &&& old(self).recv_from_king_fault(
                        payload_lists(bytes_out),
                        payload_of(received),
                    ) == Some(e)
                    &&& final(self).stats == old(self).stats
                },
            },
    {
        if !self.mesh_complete() {
            return Err(NetError::NotConnected);
        }
        if self.am_king() {
            match bytes_out {
                None => Err(NetError::MissingPayloads),
                Some(out) => {
                    if received.is_some() {
                        return Err(NetError::UnexpectedPayloads);
                    }
                    if out.len() != self.peers.len() {
                        return Err(NetError::WrongPeerCount);
                    }
                    let m: usize = out[0].len();
                    assert(payloads_of(out@)[0].len() == m);
                    if !remote_lengths_ok(&out, 0, m) {
                        assert(!equal_lengths(payloads_of(out@)));
                        return Err(NetError::UnequalLengths);
                    }
                    assert(equal_lengths(payloads_of(out@)));
                    let sent = Stats::fan_out_bytes(self.peers.len(), m);
                    self.stats.record_king_exchange(sent.unwrap(), 0);
                    Ok(slice_to_vec(out[0].as_slice()))
                },
            }
        } else {
            if bytes_out.is_some() {
                return Err(NetError::UnexpectedPayloads);
            }
            match received {
                None => Err(NetError::MissingPayloads),
                Some(mine) => {
                    self.stats.record_king_exchange(0, mine.len() as u64);
                    Ok(mine)
                },
            }
        }
    }
}

/// When the king keeps what it read from each other party, the list that it
/// ends an aggregation with holds every party's payload at that party's id,
/// its own at id 0, and the call is not refused.
pub proof fn lemma_aggregation_at_the_king(ch: Connections, supplied: Seq<Seq<u8>>, received: Seq<Seq<u8>>)
    requires
        ch.id == 0,
        supplied.len() == ch.n(),
        received.len() == ch.n(),
        ch.is_connected(),
        forall|i: int| 0 <= i < supplied.len() ==> (#[trigger] supplied[i]).len() == supplied[0].len(),
        forall|i: int| 0 < i < supplied.len() ==> received[i] == supplied[i],
    ensures
        ch.send_to_king_fault(supplied[0].len(), Some(received)) is None,
        spec_gather(0, supplied[0], received) == supplied,
{
    lemma_king_aggregation_round_trip(supplied, received);
}

/// In a distribution the king's call is not refused and hands it its own
/// entry of the list; what the king writes to party `i` carries that party's
/// entry, and the call of party `i` on what it read hands it that entry.
pub proof fn lemma_distribution_hands_each_its_entry(
    king: Connections,
    party: Connections,
    list: Seq<Seq<u8>>,
    i: int,
)
    requires
        king.id == 0,
        king.is_connected(),
        king.n() == list.len(),
        equal_lengths(list),
        0 < i < list.len(),
        list[i].len() <= u64::MAX,
        party.id == i,
        party.is_connected(),
    ensures
        king.recv_from_king_fault(Some(list), None) is None,
        king.spec_assigned(Some(list), None) == list[0],
        spec_unframe(spec_king_frames(list)[i]) == Some(list[i]),
        party.recv_from_king_fault(None, Some(list[i])) is None,
        party.spec_assigned(None, Some(list[i])) == list[i],
{
    lemma_king_distribution_round_trip(list, i);
}

/// A distribution mirrors an aggregation in the counters: the king sends in
/// one what it receives in the other, one payload for each peer, and any
/// other party receives in one what it sends in the other, one payload.
/// Either adds one king exchange and no broadcast.
pub proof fn lemma_distribution_mirrors_aggregation(ch: Connections, m: nat)
    requires
        ch.n() >= 1,
        ch.recv_from_king_room(m),
        ch.send_to_king_room(m),
    ensures
        ch.after_recv_from_king(m).bytes_sent - ch.stats.bytes_sent == ch.after_send_to_king(
            m,
        ).bytes_recv - ch.stats.bytes_recv,
        ch.after_recv_from_king(m).bytes_recv - ch.stats.bytes_recv == ch.after_send_to_king(
            m,
        ).bytes_sent - ch.stats.bytes_sent,
        ch.after_recv_from_king(m).king_exchanges == ch.stats.king_exchanges + 1,
        ch.after_send_to_king(m).king_exchanges == ch.stats.king_exchanges + 1,
        ch.after_recv_from_king(m).broadcasts == ch.stats.broadcasts,
        ch.id == 0 ==> ch.after_recv_from_king(m).bytes_sent == ch.stats.bytes_sent + (ch.n() - 1)
            * m,
        ch.id != 0 ==> ch.after_recv_from_king(m).bytes_recv == ch.stats.bytes_recv + m,
{
}

} // verus!
