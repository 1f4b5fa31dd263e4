//! Cumulative traffic counters.

use vstd::prelude::*;

verus! {

/// Bytes that a party moves in one direction when it exchanges an `m`-byte
/// payload with each of the other `n - 1` parties.
pub open spec fn fan_bytes(n: nat, m: nat) -> nat {
    if n == 0 {
        0
    } else {
        ((n - 1) * m) as nat
    }
}

/// Four counters that never decrease.
#[derive(Clone, Copy, Debug, PartialEq, Eq, Structural)]
pub struct Stats {
    pub bytes_sent: u64,
    pub bytes_recv: u64,
    pub king_exchanges: u64,
    pub broadcasts: u64,
}

impl Default for Stats {
    fn default() -> (s: Stats)
        ensures
            s == Stats::zero(),
    {
        Stats { bytes_sent: 0, bytes_recv: 0, king_exchanges: 0, broadcasts: 0 }
    }
}

impl Stats {
    /// The counters of a registry that has done nothing yet.
    pub open spec fn zero() -> Stats {
        Stats { bytes_sent: 0, bytes_recv: 0, king_exchanges: 0, broadcasts: 0 }
    }

    /// `self` with `sent` and `recv` bytes and the two operation counts added.
    pub open spec fn plus(self, sent: nat, recv: nat, king: nat, bcast: nat) -> Stats {
        Stats {
            bytes_sent: (self.bytes_sent + sent) as u64,
            bytes_recv: (self.bytes_recv + recv) as u64,
            king_exchanges: (self.king_exchanges + king) as u64,
            broadcasts: (self.broadcasts + bcast) as u64,
        }
    }

    /// Whether the four additions stay within the counters' range.
    pub open spec fn fits(self, sent: nat, recv: nat, king: nat, bcast: nat) -> bool {
        &&& self.bytes_sent + sent <= u64::MAX
        &&& self.bytes_recv + recv <= u64::MAX
        &&& self.king_exchanges + king <= u64::MAX
        &&& self.broadcasts + bcast <= u64::MAX
    }

    /// No counter of `self` is below the same counter of `earlier`.
    pub open spec fn at_least(self, earlier: Stats) -> bool {
        &&& self.bytes_sent >= earlier.bytes_sent
        &&& self.bytes_recv >= earlier.bytes_recv
        &&& self.king_exchanges >= earlier.king_exchanges
        &&& self.broadcasts >= earlier.broadcasts
    }

    /// Whether the four additions stay within the counters' range.
    pub fn has_room(&self, sent: u64, recv: u64, king: u64, bcast: u64) -> (room: bool)
        ensures
            room == self.fits(sent as nat, recv as nat, king as nat, bcast as nat),
    {
        sent <= u64::MAX - self.bytes_sent && recv <= u64::MAX - self.bytes_recv && king <= u64::MAX
            - self.king_exchanges && bcast <= u64::MAX - self.broadcasts
    }

    /// Bytes moved one way in a fan-out over `n` parties, or `None` where the
    /// product leaves the counters' range.
    pub fn fan_out_bytes(n: usize, m: usize) -> (r: Option<u64>)
        ensures
            r is Some <==> fan_bytes(n as nat, m as nat) <= u64::MAX,
            r is Some ==> r->0 == fan_bytes(n as nat, m as nat),
    {
        if n == 0 {
            return Some(0);
        }
        let a: u64 = (n - 1) as u64;
        let b: u64 = m as u64;
        if a == 0 || b == 0 {
            assert(a * b == 0) by (nonlinear_arith)
                requires
                    a == 0 || b == 0,
            ;
            return Some(0);
        }
        if a > u64::MAX / b {
            assert(a * b > u64::MAX) by (nonlinear_arith)
                requires
                    a > u64::MAX / b,
                    b > 0,
            ;
            None
        } else {
            assert(a * b <= u64::MAX) by (nonlinear_arith)
                requires
                    a <= u64::MAX / b,
                    b > 0,
            ;
            Some(a * b)
        }
    }

    /// Accounts for one broadcast of an `m`-byte payload among `n` parties.
    pub fn record_broadcast(&mut self, n: usize, m: usize)
        requires
            old(self).fits(fan_bytes(n as nat, m as nat), fan_bytes(n as nat, m as nat), 0, 1),
        ensures
            *final(self) == old(self).plus(
                fan_bytes(n as nat, m as nat),
                fan_bytes(n as nat, m as nat),
                0,
                1,
            ),
            final(self).at_least(*old(self)),
    {
        let bytes = Stats::fan_out_bytes(n, m);
        let b: u64 = bytes.unwrap();
        self.bytes_sent = self.bytes_sent + b;
        self.bytes_recv = self.bytes_recv + b;
        self.broadcasts = self.broadcasts + 1;
    }

    /// Accounts for one king exchange in which this party sent `sent` bytes
    /// and received `recv` bytes.
    pub fn record_king_exchange(&mut self, sent: u64, recv: u64)
        requires
            old(self).fits(sent as nat, recv as nat, 1, 0),
        ensures
            *final(self) == old(self).plus(sent as nat, recv as nat, 1, 0),
            final(self).at_least(*old(self)),
    {
        self.bytes_sent = self.bytes_sent + sent;
        self.bytes_recv = self.bytes_recv + recv;
        self.king_exchanges = self.king_exchanges + 1;
    }
}

/// One broadcast of an `m`-byte payload among `n` parties adds `(n - 1) * m`
/// to the bytes sent and to the bytes received, one to the broadcasts, and
/// nothing to the king exchanges.
pub proof fn lemma_broadcast_accounting(s: Stats, n: nat, m: nat)
    requires
        n >= 1,
        s.fits(fan_bytes(n, m), fan_bytes(n, m), 0, 1),
    ensures
        s.plus(fan_bytes(n, m), fan_bytes(n, m), 0, 1).bytes_sent == s.bytes_sent + (n - 1) * m,
        s.plus(fan_bytes(n, m), fan_bytes(n, m), 0, 1).bytes_recv == s.bytes_recv + (n - 1) * m,
        s.plus(fan_bytes(n, m), fan_bytes(n, m), 0, 1).broadcasts == s.broadcasts + 1,
        s.plus(fan_bytes(n, m), fan_bytes(n, m), 0, 1).king_exchanges == s.king_exchanges,
{
}

/// Counters only grow: whatever is added within their range leaves none of
/// them below its earlier value.
pub proof fn lemma_counters_never_decrease(s: Stats, sent: nat, recv: nat, king: nat, bcast: nat)
    requires
        s.fits(sent, recv, king, bcast),
    ensures
        s.plus(sent, recv, king, bcast).at_least(s),
{
}

} // verus!
