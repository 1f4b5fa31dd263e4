//! The pairwise role split of a collective exchange, and the framing of the
//! payloads that the king distributes.

use vstd::bytes::{
    lemma_auto_spec_u64_to_from_le_bytes, spec_u64_from_le_bytes, spec_u64_to_le_bytes,
    u64_from_le_bytes, u64_to_le_bytes,
};
use vstd::prelude::*;
use vstd::slice::slice_to_vec;

verus! {

/// Number of bytes of the length prefix of a frame.
pub const FRAME_PREFIX_LEN: usize = 8;

/// What a party does on the connection to one peer during a broadcast.
#[derive(Clone, Copy, Debug, PartialEq, Eq, Structural)]
pub enum ExchangeOrder {
    /// Read the peer's payload, then write one's own.
    ReadThenWrite,
    /// The slot is the party's own: no connection is touched.
    Local,
    /// Write one's own payload, then read the peer's.
    WriteThenRead,
}

/// The order that party `own` follows towards party `peer`: the party with the
/// higher id reads first.
pub open spec fn spec_exchange_order(own: nat, peer: nat) -> ExchangeOrder {
    if peer < own {
        ExchangeOrder::ReadThenWrite
    } else if peer == own {
        ExchangeOrder::Local
    } else {
        ExchangeOrder::WriteThenRead
    }
}

/// The order that party `own` follows towards party `peer`.
pub fn exchange_order(own: usize, peer: usize) -> (order: ExchangeOrder)
    ensures
        order == spec_exchange_order(own as nat, peer as nat),
{
    if peer < own {
        ExchangeOrder::ReadThenWrite
    } else if peer == own {
        ExchangeOrder::Local
    } else {
        ExchangeOrder::WriteThenRead
    }
}

/// The orders that party `own` follows towards each of `n` parties, by id.
pub fn broadcast_orders(n: usize, own: usize) -> (orders: Vec<ExchangeOrder>)
    ensures
        orders@.len() == n,
        forall|p: int| 0 <= p < n ==> orders@[p] == spec_exchange_order(own as nat, p as nat),
{
    let mut orders: Vec<ExchangeOrder> = Vec::new();
    let mut p: usize = 0;
    while p < n
        invariant
            p <= n,
            orders@.len() == p,
            forall|q: int| 0 <= q < p ==> orders@[q] == spec_exchange_order(own as nat, q as nat),
        decreases n - p,
    {
        orders.push(exchange_order(own, p));
        p = p + 1;
    }
    orders
}

/// Of two distinct parties exactly one reads first and the other writes first,
/// so the two never wait on a write to each other; a party is local only to
/// itself.
pub proof fn lemma_orders_are_complementary(a: nat, b: nat)
    ensures
        spec_exchange_order(a, b) == ExchangeOrder::Local <==> a == b,
        spec_exchange_order(a, b) == ExchangeOrder::ReadThenWrite <==> spec_exchange_order(b, a)
            == ExchangeOrder::WriteThenRead,
        spec_exchange_order(a, b) == ExchangeOrder::WriteThenRead <==> spec_exchange_order(b, a)
            == ExchangeOrder::ReadThenWrite,
{
}

/// The payloads held by a list of buffers.
pub open spec fn payloads_of(buffers: Seq<Vec<u8>>) -> Seq<Seq<u8>> {
    Seq::new(buffers.len(), |i: int| buffers[i]@)
}

/// Whether every buffer but the one at `own` holds exactly `m` bytes.
pub open spec fn remote_lengths_are(received: Seq<Seq<u8>>, own: int, m: nat) -> bool {
    forall|i: int| 0 <= i < received.len() && i != own ==> (#[trigger] received[i]).len() == m
}

/// What a party holds after gathering: its own payload at its own id, and at
/// every other id what it read from that peer.
pub open spec fn spec_gather(own: int, payload: Seq<u8>, received: Seq<Seq<u8>>) -> Seq<Seq<u8>> {
    Seq::new(received.len(), |i: int| if i == own { payload } else { received[i] })
}

/// Puts the party's own payload at its own id among what it read from the
/// others.
pub fn gather(own: usize, payload: &[u8], received: Vec<Vec<u8>>) -> (all: Vec<Vec<u8>>)
    requires
        own < received@.len(),
    ensures
        payloads_of(all@) == spec_gather(own as int, payload@, payloads_of(received@)),
{
    let mut all = received;
    all.set(own, slice_to_vec(payload));
    assert(payloads_of(all@) =~= spec_gather(own as int, payload@, payloads_of(received@)));
    all
}

/// When every party reads from each peer what that peer supplied, every party
/// ends a broadcast with the same list: party `i`'s payload at index `i`.
pub proof fn lemma_broadcast_round_trip(supplied: Seq<Seq<u8>>, own: int, received: Seq<Seq<u8>>)
    requires
        0 <= own < supplied.len(),
        received.len() == supplied.len(),
        forall|i: int| 0 <= i < supplied.len() && i != own ==> received[i] == supplied[i],
    ensures
        spec_gather(own, supplied[own], received) == supplied,
{
    assert(spec_gather(own, supplied[own], received) =~= supplied);
}

/// When the king reads from each other party what that party sent, the list
/// that it ends an aggregation with holds every party's payload at that
/// party's id, its own at id 0.
pub proof fn lemma_king_aggregation_round_trip(supplied: Seq<Seq<u8>>, received: Seq<Seq<u8>>)
    requires
        supplied.len() > 0,
        received.len() == supplied.len(),
        forall|i: int| 0 < i < supplied.len() ==> received[i] == supplied[i],
    ensures
        spec_gather(0, supplied[0], received) == supplied,
{
    assert(spec_gather(0, supplied[0], received) =~= supplied);
}

/// The bytes that carry one payload from the king: its length as eight
/// little-endian bytes, then the payload.
pub open spec fn spec_frame(payload: Seq<u8>) -> Seq<u8> {
    spec_u64_to_le_bytes(payload.len() as u64) + payload
}

/// The payload length that a frame's prefix announces.
pub open spec fn spec_frame_length(prefix: Seq<u8>) -> nat {
    spec_u64_from_le_bytes(prefix) as nat
}

/// The payload of a frame at the start of `wire`, where `wire` holds a
/// whole one.
pub open spec fn spec_unframe(wire: Seq<u8>) -> Option<Seq<u8>> {
    if wire.len() < 8 {
        None
    } else {
        let m = spec_frame_length(wire.subrange(0, 8));
        if wire.len() < 8 + m {
            None
        } else {
            Some(wire.subrange(8, 8 + m as int))
        }
    }
}

/// Frames one payload for the wire.
pub fn encode_frame(payload: &[u8]) -> (frame: Vec<u8>)
    ensures
        frame@ == spec_frame(payload@),
        frame@.len() == 8 + payload@.len(),
{
    let mut frame: Vec<u8> = u64_to_le_bytes(payload.len() as u64);
    let ghost prefix = frame@;
    let mut k: usize = 0;
    while k < payload.len()
        invariant
            k <= payload@.len(),
            frame@ == prefix + payload@.subrange(0, k as int),
        decreases payload@.len() - k,
    {
        frame.push(payload[k]);
        k = k + 1;
        assert(frame@ =~= prefix + payload@.subrange(0, k as int));
    }
    assert(payload@.subrange(0, k as int) =~= payload@);
    frame
}

/// Reads the payload length out of a frame's prefix. `None` where the prefix
/// is not eight bytes long or the length is beyond what this machine can
/// address.
pub fn decode_frame_length(prefix: &[u8]) -> (len: Option<usize>)
    ensures
        len is Some <==> prefix@.len() == 8 && spec_frame_length(prefix@) <= usize::MAX,
        len is Some ==> len->0 == spec_frame_length(prefix@),
{
    if prefix.len() != FRAME_PREFIX_LEN {
        return None;
    }
    let m: u64 = u64_from_le_bytes(prefix);
    if m > usize::MAX as u64 {
        None
    } else {
        Some(m as usize)
    }
}

/// A frame carries its payload back unchanged: the prefix announces the
/// payload's length, and the bytes behind it are the payload.
pub proof fn lemma_frame_round_trip(payload: Seq<u8>)
    requires
        payload.len() <= u64::MAX,
    ensures
        spec_frame(payload).len() == 8 + payload.len(),
        spec_frame_length(spec_frame(payload).subrange(0, 8)) == payload.len(),
        spec_unframe(spec_frame(payload)) == Some(payload),
{
    lemma_auto_spec_u64_to_from_le_bytes();
    let prefix = spec_u64_to_le_bytes(payload.len() as u64);
    let wire = spec_frame(payload);
    assert(wire.subrange(0, 8) =~= prefix);
    assert(wire.subrange(8, 8 + payload.len() as int) =~= payload);
}

} // verus!
