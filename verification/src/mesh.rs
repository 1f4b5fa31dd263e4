//! The order in which one party establishes its connections, round by round,
//! and what it does when an attempt to connect fails.

use vstd::prelude::*;

verus! {

/// Pause between two attempts to connect, in milliseconds.
pub const RETRY_BACKOFF_MS: u64 = 10;

/// Time after which a party stops trying to reach a peer, in milliseconds.
pub const CONNECT_LIMIT_MS: u64 = 30_000;

/// One thing that a party does while the mesh is established.
#[derive(Clone, Copy, Debug, PartialEq, Eq, Structural)]
pub enum MeshStep {
    /// Connect to the address of `peer`, which has the higher id.
    Connect { peer: usize },
    /// Listen on one's own address and accept the connection of `peer`, which
    /// has the lower id.
    Accept { peer: usize },
    /// Write the one-byte token that lets `peer` begin its round.
    SendToken { peer: usize },
    /// Read the one-byte token of `peer` before beginning one's own round.
    AwaitToken { peer: usize },
}

/// The steps `Connect { peer: c }` for `c` from `from` up to `n`, in order.
pub open spec fn spec_connects(from: nat, n: nat) -> Seq<MeshStep> {
    Seq::new(
        if from <= n {
            (n - from) as nat
        } else {
            0
        },
        |k: int| MeshStep::Connect { peer: (from + k) as usize },
    )
}

/// What party `id` of `n` does in round `r`, the round in which party `r`
/// connects to every party above it and then hands the token on.
pub open spec fn spec_round(n: nat, id: nat, r: nat) -> Seq<MeshStep> {
    let links = if id == r {
        spec_connects(r + 1, n)
    } else if r < id {
        seq![MeshStep::Accept { peer: r as usize }]
    } else {
        Seq::<MeshStep>::empty()
    };
    let token = if r + 1 >= n {
        Seq::<MeshStep>::empty()
    } else if id == r {
        seq![MeshStep::SendToken { peer: (r + 1) as usize }]
    } else if id == r + 1 {
        seq![MeshStep::AwaitToken { peer: r as usize }]
    } else {
        Seq::<MeshStep>::empty()
    };
    links + token
}

/// What party `id` of `n` does in the rounds below `upto`.
pub open spec fn spec_rounds(n: nat, id: nat, upto: nat) -> Seq<MeshStep>
    decreases upto,
{
    if upto == 0 {
        Seq::<MeshStep>::empty()
    } else {
        spec_rounds(n, id, (upto - 1) as nat) + spec_round(n, id, (upto - 1) as nat)
    }
}

/// Everything that party `id` of `n` does to establish the mesh.
pub open spec fn spec_mesh_plan(n: nat, id: nat) -> Seq<MeshStep> {
    spec_rounds(n, id, n)
}

/// The steps of party `id` among `n` parties, in the order in which it takes
/// them.
pub fn mesh_plan(n: usize, id: usize) -> (plan: Vec<MeshStep>)
    ensures
        plan@ == spec_mesh_plan(n as nat, id as nat),
{
    let mut plan: Vec<MeshStep> = Vec::new();
    let mut r: usize = 0;
    while r < n
        invariant
            r <= n,
            plan@ == spec_rounds(n as nat, id as nat, r as nat),
        decreases n - r,
    {
        let ghost before = plan@;
        if id == r {
            let mut c: usize = r + 1;
            while c < n
                invariant
                    r + 1 <= c <= n,
                    plan@ == before + spec_connects((r + 1) as nat, c as nat),
                decreases n - c,
            {
                plan.push(MeshStep::Connect { peer: c });
                c = c + 1;
                assert(plan@ =~= before + spec_connects((r + 1) as nat, c as nat));
            }
        } else if r < id {
            plan.push(MeshStep::Accept { peer: r });
        }
        if r + 1 < n {
            if id == r {
                plan.push(MeshStep::SendToken { peer: r + 1 });
            } else if id == r + 1 {
                plan.push(MeshStep::AwaitToken { peer: r });
            }
        }
        assert(plan@ =~= before + spec_round(n as nat, id as nat, r as nat));
        r = r + 1;
    }
    plan
}

/// The steps `Accept { peer: r }` for `r` below `upto`, in order.
pub open spec fn spec_accepts(upto: nat) -> Seq<MeshStep> {
    Seq::new(upto, |r: int| MeshStep::Accept { peer: r as usize })
}

/// The token that party `id` waits for: that of the party just below it.
pub open spec fn spec_awaited(id: nat) -> Seq<MeshStep> {
    if id > 0 {
        seq![MeshStep::AwaitToken { peer: (id - 1) as usize }]
    } else {
        Seq::<MeshStep>::empty()
    }
}

/// The token that party `id` of `n` hands on: to the party just above it.
pub open spec fn spec_handed_on(n: nat, id: nat) -> Seq<MeshStep> {
    if id + 1 < n {
        seq![MeshStep::SendToken { peer: (id + 1) as usize }]
    } else {
        Seq::<MeshStep>::empty()
    }
}

/// The plan of party `id` written out: accept every lower party, wait for the
/// token, connect to every higher party, hand the token on.
pub open spec fn spec_plan_in_order(n: nat, id: nat) -> Seq<MeshStep> {
    spec_accepts(id) + spec_awaited(id) + spec_connects(id + 1, n) + spec_handed_on(n, id)
}

proof fn lemma_rounds_in_order(n: nat, id: nat, upto: nat)
    requires
        id < n,
        upto <= n,
    ensures
        spec_rounds(n, id, upto) == if upto < id {
            spec_accepts(upto)
        } else if upto == id {
            spec_accepts(id) + spec_awaited(id)
        } else {
            spec_plan_in_order(n, id)
        },
    decreases upto,
{
    if upto > 0 {
        let r = (upto - 1) as nat;
        lemma_rounds_in_order(n, id, r);
        let earlier = spec_rounds(n, id, r);
        let round = spec_round(n, id, r);
        if upto < id {
            assert(earlier + round =~= spec_accepts(upto));
        } else if upto == id {
            assert(earlier + round =~= spec_accepts(id) + spec_awaited(id));
        } else {
            assert(earlier + round =~= spec_plan_in_order(n, id));
        }
    } else {
        assert(spec_rounds(n, id, 0) =~= spec_accepts(0));
        assert(spec_rounds(n, id, 0) =~= spec_accepts(0) + spec_awaited(0));
    }
}

/// A party first accepts the connection of every lower party, in ascending
/// order, then waits for the token of the party just below it, then connects
/// to every higher party, in ascending order, and at last hands the token to
/// the party just above it.
pub proof fn lemma_plan_in_order(n: nat, id: nat)
    requires
        id < n,
    ensures
        spec_mesh_plan(n, id) == spec_plan_in_order(n, id),
{
    lemma_rounds_in_order(n, id, n);
}

/// The token that a party hands on is the one that the next party waits for:
/// a party ends its plan by sending it, and the party above takes it after
/// its last accept and before its first connect.
pub proof fn lemma_token_is_awaited(n: nat, id: nat)
    requires
        id + 1 < n,
        n <= usize::MAX,
    ensures
        spec_mesh_plan(n, id).last() == (MeshStep::SendToken { peer: (id + 1) as usize }),
        spec_mesh_plan(n, id + 1)[id as int + 1] == (MeshStep::AwaitToken { peer: id as usize }),
{
    lemma_plan_in_order(n, id);
    lemma_plan_in_order(n, id + 1);
}

/// No step stands twice in a plan: a party gets one connection with each
/// other party, and takes and gives one token at most.
pub proof fn lemma_no_step_repeats(n: nat, id: nat, i: int, j: int)
    requires
        id < n,
        n <= usize::MAX,
        0 <= i < spec_mesh_plan(n, id).len(),
        0 <= j < spec_mesh_plan(n, id).len(),
        spec_mesh_plan(n, id)[i] == spec_mesh_plan(n, id)[j],
    ensures
        i == j,
{
    lemma_plan_in_order(n, id);
}

/// The step by which party `id` gets its connection with `peer`.
pub open spec fn spec_link_step(id: nat, peer: nat) -> MeshStep {
    if peer < id {
        MeshStep::Accept { peer: peer as usize }
    } else {
        MeshStep::Connect { peer: peer as usize }
    }
}

/// The rounds up to and including round `min(id, peer)` hold the step that
/// links `id` with `peer`.
proof fn lemma_rounds_hold_link(n: nat, id: nat, peer: nat, upto: nat)
    requires
        id < n,
        peer < n,
        peer != id,
        peer < upto || id < upto,
        upto <= n,
        n <= usize::MAX,
    ensures
        spec_rounds(n, id, upto).contains(spec_link_step(id, peer)),
    decreases upto,
{
    let r = (upto - 1) as nat;
    let earlier = spec_rounds(n, id, r);
    let round = spec_round(n, id, r);
    let step = spec_link_step(id, peer);
    if peer < r || id < r {
        lemma_rounds_hold_link(n, id, peer, r);
        let k = choose|k: int| 0 <= k < earlier.len() && earlier[k] == step;
        assert((earlier + round)[k] == step);
    } else if id == r {
        let k = (peer - (r + 1)) as int;
        assert(spec_connects(r + 1, n)[k] == step);
        assert(round[k] == step);
        assert((earlier + round)[earlier.len() + k] == step);
    } else {
        assert(round[0] == step);
        assert((earlier + round)[earlier.len() as int] == step);
    }
}

/// The plan of a party holds, for every other party, the step that links the
/// two: an accept for a lower id, a connect for a higher one.
pub proof fn lemma_plan_links_every_peer(n: nat, id: nat, peer: nat)
    requires
        id < n,
        peer < n,
        peer != id,
        n <= usize::MAX,
    ensures
        spec_mesh_plan(n, id).contains(spec_link_step(id, peer)),
{
    lemma_rounds_hold_link(n, id, peer, n);
}

/// For every pair of parties the one with the lower id connects and the
/// other accepts, so each pair gets its connection from both ends.
pub proof fn lemma_every_pair_meets(n: nat, low: nat, high: nat)
    requires
        low < high < n,
        n <= usize::MAX,
    ensures
        spec_mesh_plan(n, low).contains(MeshStep::Connect { peer: high as usize }),
        spec_mesh_plan(n, high).contains(MeshStep::Accept { peer: low as usize }),
{
    lemma_plan_links_every_peer(n, low, high);
    lemma_plan_links_every_peer(n, high, low);
}

/// Why an attempt to connect failed.
#[derive(Clone, Copy, Debug, PartialEq, Eq, Structural)]
pub enum ConnectFailure {
    /// The peer refused the connection: it does not listen yet.
    Refused,
    /// The connection was reset.
    Reset,
    /// Anything else.
    Other,
}

/// What to do after a failed attempt to connect.
#[derive(Clone, Copy, Debug, PartialEq, Eq, Structural)]
pub enum RetryDecision {
    /// Pause for the backoff and try again; `waited_ms` is the time waited
    /// so far, this pause included.
    Retry { waited_ms: u64 },
    /// The peer did not appear within the limit.
    GiveUp,
    /// The failure is not one that passes with time.
    Abort,
}

/// The decision after a failure, `waited_ms` having been waited before it.
pub open spec fn spec_after_connect_failure(waited_ms: u64, failure: ConnectFailure) -> RetryDecision {
    if failure == ConnectFailure::Other {
        RetryDecision::Abort
    } else if waited_ms + RETRY_BACKOFF_MS > CONNECT_LIMIT_MS {
        RetryDecision::GiveUp
    } else {
        RetryDecision::Retry { waited_ms: (waited_ms + RETRY_BACKOFF_MS) as u64 }
    }
}

/// Decides what follows a failed attempt to connect: a refused or reset
/// connection is tried again after the backoff until the limit is passed.
pub fn after_connect_failure(waited_ms: u64, failure: ConnectFailure) -> (decision: RetryDecision)
    ensures
        decision == spec_after_connect_failure(waited_ms, failure),
{
    match failure {
        ConnectFailure::Other => RetryDecision::Abort,
        _ => {
            if waited_ms > CONNECT_LIMIT_MS - RETRY_BACKOFF_MS {
                RetryDecision::GiveUp
            } else {
                RetryDecision::Retry { waited_ms: waited_ms + RETRY_BACKOFF_MS }
            }
        },
    }
}

/// Every retry adds the backoff to the time waited, and none is granted
/// beyond the limit: the attempts to reach one peer end.
pub proof fn lemma_retries_are_bounded(waited_ms: u64, failure: ConnectFailure)
    ensures
        match spec_after_connect_failure(waited_ms, failure) {
            RetryDecision::Retry { waited_ms: next } => next == waited_ms + RETRY_BACKOFF_MS && next
                <= CONNECT_LIMIT_MS,
            RetryDecision::GiveUp => waited_ms + RETRY_BACKOFF_MS > CONNECT_LIMIT_MS,
            RetryDecision::Abort => failure == ConnectFailure::Other,
        },
{
}

} // verus!
