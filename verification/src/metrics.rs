use vstd::prelude::*;

verus! {

/// Nanoseconds in a second.
pub const NANOS_PER_SEC: u32 = 1_000_000_000;

/// A span of time in whole seconds and nanoseconds, as `std::time::Duration` holds it.
#[derive(Debug)]
pub struct TimeSpan {
    secs: u64,
    nanos: u32,
}

/// What `Duration::new(secs, nanos) / rhs` returns, as seconds and subsecond nanoseconds.
pub uninterp spec fn duration_quotient(secs: u64, nanos: u32, rhs: u32) -> (u64, u32);

/// Calls `Duration::new(secs, nanos) / rhs` and takes the result apart.
/// Trusted: the result is `duration_quotient` of the arguments, and its nanoseconds are below
/// one second, as for every `Duration`. Where `rhs` divides the span exactly, the result is
/// the exact quotient (the documentation says the call computes `self / rhs`). How it rounds
/// otherwise is not stated.
#[verifier::external_body]
fn divide_duration(secs: u64, nanos: u32, rhs: u32) -> (q: (u64, u32))
    requires
        nanos < NANOS_PER_SEC,
        rhs > 0,
    ensures
        q == duration_quotient(secs, nanos, rhs),
        q.1 < NANOS_PER_SEC,
        (secs as nat * NANOS_PER_SEC as nat + nanos as nat) % (rhs as nat) == 0 ==> q.0 as nat
            * NANOS_PER_SEC as nat + q.1 as nat == (secs as nat * NANOS_PER_SEC as nat
            + nanos as nat) / (rhs as nat),
{
    let d = std::time::Duration::new(secs, nanos) / rhs;
    (d.as_secs(), d.subsec_nanos())
}

impl View for TimeSpan {
    type V = nat;

    /// The span in nanoseconds.
    closed spec fn view(&self) -> nat {
        self.secs as nat * NANOS_PER_SEC as nat + self.nanos as nat
    }
}

/// The largest number of nanoseconds a `TimeSpan` can hold.
pub open spec fn max_span_nanos() -> nat {
    u64::MAX as nat * NANOS_PER_SEC as nat + (NANOS_PER_SEC - 1) as nat
}

/// A span of at most `max_span_nanos()` nanoseconds is its whole seconds times a billion plus
/// its subsecond nanoseconds, and its whole seconds fit in a `u64`: rebuilding a span from
/// what `as_secs` and `subsec_nanos` give, with `TimeSpan::new`, gives the same span.
pub proof fn lemma_span_parts(v: nat)
    requires
        v <= max_span_nanos(),
    ensures
        (v / NANOS_PER_SEC as nat) * NANOS_PER_SEC + v % NANOS_PER_SEC as nat == v,
        v % (NANOS_PER_SEC as nat) < NANOS_PER_SEC,
        v / (NANOS_PER_SEC as nat) <= u64::MAX,
{
    vstd::arithmetic::div_mod::lemma_fundamental_div_mod(v as int, NANOS_PER_SEC as int);
    vstd::arithmetic::div_mod::lemma_div_is_ordered(
        v as int,
        max_span_nanos() as int,
        NANOS_PER_SEC as int,
    );
    vstd::arithmetic::div_mod::lemma_fundamental_div_mod_converse(
        max_span_nanos() as int,
        NANOS_PER_SEC as int,
        u64::MAX as int,
        (NANOS_PER_SEC - 1) as int,
    );
}

impl TimeSpan {
    #[verifier::type_invariant]
    spec fn nanos_below_second(self) -> bool {
        self.nanos < NANOS_PER_SEC
    }

    /// The span `self / rhs` as the standard library computes it, in nanoseconds.
    pub closed spec fn quotient(self, rhs: u32) -> nat {
        let q = duration_quotient(self.secs, self.nanos, rhs);
        q.0 as nat * NANOS_PER_SEC as nat + q.1 as nat
    }

    /// The empty span.
    pub fn zero() -> (z: TimeSpan)
        ensures
            z@ == 0,
    {
        TimeSpan { secs: 0, nanos: 0 }
    }

    /// The span of `secs` seconds and `nanos` nanoseconds; nanoseconds beyond a second carry
    /// into the seconds.
    pub fn new(secs: u64, nanos: u32) -> (d: TimeSpan)
        requires
            secs + nanos / NANOS_PER_SEC <= u64::MAX,
        ensures
            d@ == secs * NANOS_PER_SEC + nanos,
    {
        let extra = (nanos / NANOS_PER_SEC) as u64;
        let d = TimeSpan { secs: secs + extra, nanos: nanos % NANOS_PER_SEC };
        proof {
            vstd::arithmetic::div_mod::lemma_fundamental_div_mod(
                nanos as int,
                NANOS_PER_SEC as int,
            );
        }
        d
    }

    /// The whole seconds of the span.
    pub fn as_secs(&self) -> (s: u64)
        ensures
            s == self@ / NANOS_PER_SEC as nat,
    {
        proof {
            use_type_invariant(self);
            vstd::arithmetic::div_mod::lemma_fundamental_div_mod_converse(
                self@ as int,
                NANOS_PER_SEC as int,
                self.secs as int,
                self.nanos as int,
            );
        }
        self.secs
    }

    /// The nanoseconds of the span beyond its whole seconds.
    pub fn subsec_nanos(&self) -> (n: u32)
        ensures
            n == self@ % NANOS_PER_SEC as nat,
    {
        proof {
            use_type_invariant(self);
            vstd::arithmetic::div_mod::lemma_fundamental_div_mod_converse(
                self@ as int,
                NANOS_PER_SEC as int,
                self.secs as int,
                self.nanos as int,
            );
        }
        self.nanos
    }

    /// The sum of two spans.
    pub fn add(&self, other: &TimeSpan) -> (s: TimeSpan)
        requires
            self@ + other@ <= max_span_nanos(),
        ensures
            s@ == self@ + other@,
    {
        proof {
            use_type_invariant(self);
            use_type_invariant(other);
        }
        let nanos = self.nanos + other.nanos;
        if nanos >= NANOS_PER_SEC {
            TimeSpan { secs: self.secs + other.secs + 1, nanos: nanos - NANOS_PER_SEC }
        } else {
            TimeSpan { secs: self.secs + other.secs, nanos }
        }
    }

    /// The span divided by `rhs`, as `Duration` division computes it.
    pub fn divide(&self, rhs: u32) -> (q: TimeSpan)
        requires
            rhs > 0,
        ensures
            q@ == self.quotient(rhs),
            self@ % (rhs as nat) == 0 ==> q@ == self@ / (rhs as nat),
    {
        proof {
            use_type_invariant(self);
        }
        let (secs, nanos) = divide_duration(self.secs, self.nanos, rhs);
        TimeSpan { secs, nanos }
    }
}

/// Time spent in forward and backward passes of one part of the model, and how many passes
/// were timed.
#[derive(Debug)]
pub struct TrainingDuration {
    /// Total time of the timed forward passes.
    pub forward_duration_total: TimeSpan,
    /// Total time of the timed backward passes.
    pub backward_duration_total: TimeSpan,
    /// Number of timed forward passes.
    pub forward_count: usize,
    /// Number of timed backward passes.
    pub backward_count: usize,
}

impl Default for TrainingDuration {
    /// No passes timed.
    fn default() -> (d: Self)
        ensures
            d.forward_duration_total@ == 0,
            d.backward_duration_total@ == 0,
            d.forward_count == 0,
            d.backward_count == 0,
    {
        TrainingDuration {
            forward_duration_total: TimeSpan::zero(),
            backward_duration_total: TimeSpan::zero(),
            forward_count: 0,
            backward_count: 0,
        }
    }
}

impl TrainingDuration {
    /// Records one forward pass that took `duration`.
    pub fn add_forward(&mut self, duration: TimeSpan)
        requires
            old(self).forward_duration_total@ + duration@ <= max_span_nanos(),
            old(self).forward_count < usize::MAX,
        ensures
            final(self).forward_duration_total@ == old(self).forward_duration_total@ + duration@,
            final(self).forward_count == old(self).forward_count + 1,
            final(self).backward_duration_total == old(self).backward_duration_total,
            final(self).backward_count == old(self).backward_count,
    {
        self.forward_duration_total = self.forward_duration_total.add(&duration);
        self.forward_count = self.forward_count + 1;
    }

    /// Records one backward pass that took `duration`.
    pub fn add_backward(&mut self, duration: TimeSpan)
        requires
            old(self).backward_duration_total@ + duration@ <= max_span_nanos(),
            old(self).backward_count < usize::MAX,
        ensures
            final(self).backward_duration_total@ == old(self).backward_duration_total@ + duration@,
            final(self).backward_count == old(self).backward_count + 1,
            final(self).forward_duration_total == old(self).forward_duration_total,
            final(self).forward_count == old(self).forward_count,
    {
        self.backward_duration_total = self.backward_duration_total.add(&duration);
        self.backward_count = self.backward_count + 1;
    }

    /// The mean time of a timed forward pass: the total divided by the count taken as a
    /// `u32`, or zero where no pass was timed.
    pub fn avg_forward_duration(&self) -> (d: TimeSpan)
        requires
            self.forward_count == 0 || self.forward_count as u32 != 0,
        ensures
            self.forward_count > 0 ==> d@ == self.forward_duration_total.quotient(
                self.forward_count as u32,
            ),
            self.forward_count == 0 ==> d@ == 0,
            self.forward_count > 0 && self.forward_count as u32 == self.forward_count
                && self.forward_duration_total@ % (self.forward_count as nat) == 0 ==> d@
                == self.forward_duration_total@ / (self.forward_count as nat),
    {
        if self.forward_count > 0 {
            self.forward_duration_total.divide(self.forward_count as u32)
        } else {
            TimeSpan::zero()
        }
    }

    /// The mean time of a timed backward pass: the total divided by the count taken as a
    /// `u32`, or zero where no pass was timed.
    pub fn avg_backward_duration(&self) -> (d: TimeSpan)
        requires
            self.backward_count == 0 || self.backward_count as u32 != 0,
        ensures
            self.backward_count > 0 ==> d@ == self.backward_duration_total.quotient(
                self.backward_count as u32,
            ),
            self.backward_count == 0 ==> d@ == 0,
            self.backward_count > 0 && self.backward_count as u32 == self.backward_count
                && self.backward_duration_total@ % (self.backward_count as nat) == 0 ==> d@
                == self.backward_duration_total@ / (self.backward_count as nat),
    {
        if self.backward_count > 0 {
            self.backward_duration_total.divide(self.backward_count as u32)
        } else {
            TimeSpan::zero()
        }
    }
}

/// Passes of equal length average to that length: after `n` forward passes of `d`
/// nanoseconds each, from no pass at all, the total is `n * d`, and where `n` fits in a `u32`
/// the average that `avg_forward_duration` (or `avg_backward_duration`) gives is exactly `d`.
pub proof fn lemma_average_of_equal_passes(n: nat, d: nat)
    requires
        1 <= n <= u32::MAX,
    ensures
        (n * d) % n == 0,
        (n * d) / n == d,
        n as u32 == n,
{
    vstd::arithmetic::div_mod::lemma_mod_multiples_basic(d as int, n as int);
    vstd::arithmetic::div_mod::lemma_div_multiples_vanish(d as int, n as int);
    assert(d * n == n * d) by (nonlinear_arith);
}

} // verus!
