//! The operations of a registry as free functions, for callers that hold the
//! one registry of their process and pass it along.

use crate::connections::{payload_lists, payload_of, Connections, NetError, Peer};
use crate::directory::{spec_directory_fault, Endpoint};
use crate::exchange::{payloads_of, spec_gather};
use crate::stats::{fan_bytes, Stats};
use vstd::prelude::*;

verus! {

/// Loads the directory into `ch`, as [`Connections::init_from_path`] does.
pub fn init_from_path(ch: &mut Connections, entries: &Vec<Option<Endpoint>>, id: usize) -> (r: Result<
    (),
    NetError,
>)
    requires
        old(ch).wf(),
    ensures
        final(ch).wf(),
        final(ch).stats == old(ch).stats,
        match r {
            Ok(()) => spec_directory_fault(entries@, id as nat) is None && final(ch).loaded(
                entries@,
                id,
            ),
            Err(e) => spec_directory_fault(entries@, id as nat) == Some(e->fault) && e
                is Config && final(ch).same_mesh(old(ch)),
        },
{
    ch.init_from_path(entries, id)
}

/// Completes a broadcast on `ch`, as [`Connections::broadcast`] does.
pub fn broadcast(ch: &mut Connections, bytes_out: &[u8], received: Vec<Vec<u8>>) -> (r: Result<
    Vec<Vec<u8>>,
    NetError,
>)
    requires
        old(ch).wf(),
        old(ch).broadcast_fault(bytes_out@.len(), payloads_of(received@)) is None
            ==> old(ch).stats.fits(
            fan_bytes(old(ch).n(), bytes_out@.len()),
            fan_bytes(old(ch).n(), bytes_out@.len()),
            0,
            1,
        ),
    ensures
        final(ch).wf(),
        final(ch).same_mesh(old(ch)),
        final(ch).stats.at_least(old(ch).stats),
        match r {
            Ok(all) => {
                &&& old(ch).broadcast_fault(bytes_out@.len(), payloads_of(received@)) is None
                &&& payloads_of(all@) == spec_gather(
                    old(ch).id as int,
                    bytes_out@,
                    payloads_of(received@),
                )
                &&& final(ch).stats == old(ch).stats.plus(
                    fan_bytes(old(ch).n(), bytes_out@.len()),
                    fan_bytes(old(ch).n(), bytes_out@.len()),
                    0,
                    1,
                )
            },
            Err(e) => {
                &&& old(ch).broadcast_fault(bytes_out@.len(), payloads_of(received@)) == Some(e)
                &&& final(ch).stats == old(ch).stats
            },
        },
{
    ch.broadcast(bytes_out, received)
}

/// Completes an aggregation on `ch`, as [`Connections::send_to_king`] does.
pub fn send_to_king(ch: &mut Connections, bytes_out: &[u8], received: Option<Vec<Vec<u8>>>) -> (r: Result<
    Option<Vec<Vec<u8>>>,
    NetError,
>)
    requires
        old(ch).wf(),
        old(ch).send_to_king_fault(bytes_out@.len(), payload_lists(received)) is None ==> old(ch).send_to_king_room(bytes_out@.len()),
    ensures
        final(ch).wf(),
        final(ch).same_mesh(old(ch)),
        final(ch).stats.at_least(old(ch).stats),
        match r {
            Ok(all) => {
                &&& old(ch).send_to_king_fault(bytes_out@.len(), payload_lists(received))
                    is None
                &&& final(ch).stats == old(ch).after_send_to_king(bytes_out@.len())
                &&& all is Some <==> old(ch).id == 0
                &&& all is Some ==> payloads_of(all->0@) == spec_gather(
                    0,
                    bytes_out@,
                    payloads_of(received->0@),
                )
            },
            Err(e) => {
                &&& old(ch).send_to_king_fault(bytes_out@.len(), payload_lists(received))
                    == Some(e)
                &&& final(ch).stats == old(ch).stats
            },
        },
{
    ch.send_to_king(bytes_out, received)
}

/// Completes a distribution on `ch`, as [`Connections::recv_from_king`] does.
pub fn recv_from_king(ch: &mut Connections, bytes_out: Option<Vec<Vec<u8>>>, received: Option<Vec<u8>>) -> (r:
    Result<Vec<u8>, NetError>)
    requires
        old(ch).wf(),
        old(ch).recv_from_king_fault(payload_lists(bytes_out), payload_of(received)) is None
            ==> old(ch).recv_from_king_room(
            old(ch).spec_assigned(payload_lists(bytes_out), payload_of(received)).len(),
        ),
    ensures
        final(ch).wf(),
        final(ch).same_mesh(old(ch)),
        final(ch).stats.at_least(old(ch).stats),
        match r {
            Ok(mine) => {
                &&& old(ch).recv_from_king_fault(
                    payload_lists(bytes_out),
                    payload_of(received),
                ) is None
                &&& mine@ == old(ch).spec_assigned(
                    payload_lists(bytes_out),
                    payload_of(received),
                )
                &&& final(ch).stats == old(ch).after_recv_from_king(mine@.len())
            },
            Err(e) => {
                &&& old(ch).recv_from_king_fault(
                    payload_lists(bytes_out),
                    payload_of(received),
                ) == Some(e)
                &&& final(ch).stats == old(ch).stats
            },
        },
{
    ch.recv_from_king(bytes_out, received)
}

/// Whether the party of `ch` is the king.
pub fn am_king(ch: &Connections) -> (king: bool)
    ensures
        king == (ch.id == 0),
{
    ch.am_king()
}

/// Drops every connection of `ch`; the directory and the counters stay.
pub fn uninit(ch: &mut Connections)
    requires
        old(ch).wf(),
    ensures
        final(ch).wf(),
        final(ch).id == old(ch).id,
        final(ch).stats == old(ch).stats,
        final(ch).peers@.len() == old(ch).peers@.len(),
        forall|i: int|
            0 <= i < old(ch).n() ==> #[trigger] final(ch).peers@[i] == (Peer {
                connected: false,
                ..old(ch).peers@[i]
            }),
{
    ch.uninit()
}

/// A copy of the counters of `ch` as they stand.
pub fn stats(ch: &Connections) -> (snapshot: Stats)
    ensures
        snapshot == ch.stats,
{
    ch.stats()
}

} // verus!
