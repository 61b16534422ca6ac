//! How long to wait before connecting again.
use vstd::arithmetic::power2::{lemma2_to64, lemma_pow2_unfold, pow2};
use vstd::prelude::*;

verus! {

pub open spec fn least(a: int, b: int) -> int {
    if a <= b {
        a
    } else {
        b
    }
}

/// A delay that doubles with every failure, up to a limit, and starts over with
/// every success.
#[derive(Clone, Copy, Debug, PartialEq, Eq, Structural)]
pub struct Backoff {
    pub base: u64,
    pub limit: u64,
    /// The next delay, in seconds.
    pub current: u64,
}

impl Backoff {
    /// Whether the next delay can be doubled.
    pub open spec fn can_double(self) -> bool {
        self.current <= u64::MAX / 2
    }

    pub open spec fn fresh(base: u64, limit: u64) -> Backoff {
        Backoff { base, limit, current: base }
    }

    /// The backoff after its next delay has been used.
    pub open spec fn doubled(self) -> Backoff {
        Backoff { current: least(2 * self.current, self.limit as int) as u64, ..self }
    }

    pub fn new(base: u64, limit: u64) -> (r: Backoff)
        ensures
            r == Backoff::fresh(base, limit),
    {
        Backoff { base, limit, current: base }
    }

    /// Starts over.
    pub fn reset(&mut self)
        ensures
            *final(self) == Backoff::fresh(old(self).base, old(self).limit),
    {
        self.current = self.base;
    }

    /// The next delay; the one after it is twice as long, up to the limit.
    pub fn next_delay(&mut self) -> (delay: u64)
        requires
            old(self).can_double(),
        ensures
            delay == old(self).current,
            *final(self) == old(self).doubled(),
    {
        let delay = self.current;
        let twice = delay * 2;
        self.current = if twice < self.limit {
            twice
        } else {
            self.limit
        };
        delay
    }
}

/// The backoff after `n` delays in a row.
pub open spec fn after(b: Backoff, n: nat) -> Backoff
    decreases n,
{
    if n == 0 {
        b
    } else {
        after(b, (n - 1) as nat).doubled()
    }
}

/// The first delay in a row is the base; the `n`-th after it is the base doubled
/// `n` times, but never more than the limit.
pub proof fn law_delays_double_up_to_limit(base: u64, limit: u64, n: nat)
    requires
        n > 0 ==> forall|m: nat| m < n ==> (#[trigger] after(
            Backoff::fresh(base, limit),
            m,
        )).can_double(),
    ensures
        after(Backoff::fresh(base, limit), 0).current == base,
        n > 0 ==> after(Backoff::fresh(base, limit), n).current == least(
            base * pow2(n),
            limit as int,
        ),
        after(Backoff::fresh(base, limit), n).base == base,
        after(Backoff::fresh(base, limit), n).limit == limit,
    decreases n,
{
    let b = Backoff::fresh(base, limit);
    if n > 0 {
        let m = (n - 1) as nat;
        law_delays_double_up_to_limit(base, limit, m);
        lemma_pow2_unfold(n);
        let p = pow2(m) as int;
        assert(base * (2 * p) == 2 * (base * p)) by (nonlinear_arith);
        assert(after(b, m).can_double());
        if m == 0 {
            lemma2_to64();
        }
    }
}

/// With a base and a limit that can be doubled, every delay in a row can be.
pub proof fn law_modest_delays_never_overflow(base: u64, limit: u64, n: nat)
    requires
        base <= u64::MAX / 2,
        limit <= u64::MAX / 2,
    ensures
        after(Backoff::fresh(base, limit), n).can_double(),
        after(Backoff::fresh(base, limit), n).limit == limit,
    decreases n,
{
    if n > 0 {
        law_modest_delays_never_overflow(base, limit, (n - 1) as nat);
    }
}

/// A delay that starts at or below a limit stays there.
pub proof fn law_delay_never_exceeds_limit(b: Backoff)
    requires
        b.current <= b.limit,
        b.can_double(),
    ensures
        b.doubled().current <= b.limit,
        b.doubled().limit == b.limit,
{
}

} // verus!
