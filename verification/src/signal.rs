//! The event bridge between asynchronous signal deliveries and the blocking
//! tick wait: a 64-bit mask with one bit per signal number.
//!
//! A delivery only ORs one bit into the mask, so repeated deliveries of the
//! same signal coalesce; draining takes pending signals one per call, the
//! lowest-numbered first. A wake that finds nothing pending is no failure —
//! condition variables may wake spuriously on healthy primitives — so the
//! waiter simply waits again. The runtime around this model — the registered
//! handler, the atomic that holds the mask and the condition variable that
//! wakes the waiter — performs exactly these transitions.

use vstd::prelude::*;

verus! {

/// The blocking wait's only failure: the synchronisation primitives around
/// the mask are poisoned, which the caller treats as fatal and unrecoverable.
#[derive(Debug)]
pub struct SignalsWaitError {}

impl SignalsWaitError {
    /// The error value. The wait protocol itself has no failing state, so
    /// only a poisoned lock or condition variable ever produces one.
    pub fn unreachable() -> (r: SignalsWaitError) {
        SignalsWaitError {  }
    }
}

/// Whether signal number `sig` is marked pending in `mask`.
pub open spec fn is_pending(mask: u64, sig: u64) -> bool {
    sig < 64 && (mask >> sig) & 1u64 == 1u64
}

/// The mask bit of one signal number: zero outside the deliverable range
/// `(0, 64)`, so an out-of-range delivery marks nothing.
pub open spec fn spec_signal_bit(sig: i32) -> u64 {
    if 0 < sig < 64 {
        1u64 << (sig as u64)
    } else {
        0u64
    }
}

/// What one delivery of `sig` leaves in the mask.
pub open spec fn spec_deliver(mask: u64, sig: i32) -> u64 {
    mask | spec_signal_bit(sig)
}

/// The lowest-numbered pending signal of `mask` at or above `i`; 64 when
/// none is.
pub open spec fn lowest_from(mask: u64, i: u64) -> u64
    decreases 64 - i,
{
    if i >= 64 {
        64u64
    } else if (mask >> i) & 1u64 == 1u64 {
        i
    } else {
        lowest_from(mask, (i + 1) as u64)
    }
}

/// The lowest-numbered pending signal of `mask`; 64 when none is.
pub open spec fn spec_lowest(mask: u64) -> u64 {
    lowest_from(mask, 0)
}

/// What one drain does to the mask and what it reports: nothing and 0 on an
/// empty mask, else the lowest pending signal, cleared.
pub open spec fn spec_take(mask: u64) -> (u64, i32) {
    if mask == 0 {
        (mask, 0i32)
    } else {
        (mask & !(1u64 << spec_lowest(mask)), spec_lowest(mask) as i32)
    }
}

/// The bit `lowest_from` settles on is the least pending one.
proof fn lemma_lowest_from_is_least(mask: u64, i: u64, s: u64)
    requires
        i <= s,
        is_pending(mask, s),
        forall|q: u64| i <= q < s ==> !is_pending(mask, q),
    ensures
        lowest_from(mask, i) == s,
    decreases s - i,
{
    if i < s {
        assert(!is_pending(mask, i));
        lemma_lowest_from_is_least(mask, (i + 1) as u64, s);
    }
}

/// The least pending bit of a mask pins `spec_lowest` down.
pub proof fn lemma_lowest_is_least(mask: u64, s: u64)
    requires
        is_pending(mask, s),
        forall|q: u64| q < s ==> !is_pending(mask, q),
    ensures
        spec_lowest(mask) == s,
{
    lemma_lowest_from_is_least(mask, 0, s);
}

/// A mask whose search for a pending bit ran past the top has no bits left
/// from `i` upward.
proof fn lemma_no_bits_from(mask: u64, i: u64)
    requires
        i < 64,
        lowest_from(mask, i) == 64,
    ensures
        mask >> i == 0,
    decreases 64 - i,
{
    assert((mask >> i) & 1u64 != 1u64);
    if i == 63 {
        assert(mask >> i == 0) by (bit_vector)
            requires
                i == 63,
                (mask >> i) & 1u64 != 1u64,
        ;
    } else {
        lemma_no_bits_from(mask, (i + 1) as u64);
        assert(mask >> i == 0) by (bit_vector)
            requires
                i < 63,
                (mask >> i) & 1u64 != 1u64,
                mask >> (i + 1) == 0,
        ;
    }
}

/// A mask with no pending bit at all is zero.
proof fn lemma_all_clear_means_zero(mask: u64)
    requires
        lowest_from(mask, 0) == 64,
    ensures
        mask == 0,
{
    lemma_no_bits_from(mask, 0);
    assert(mask == 0) by (bit_vector)
        requires
            mask >> 0u64 == 0,
    ;
}

/// The lowest-numbered pending signal in `mask`, or 64 when none is pending.
pub fn lowest_pending(mask: u64) -> (r: u32)
    ensures
        r == spec_lowest(mask),
        mask == 0 <==> r == 64,
        mask != 0 ==> r < 64 && is_pending(mask, r as u64) && (forall|s: u64|
            s < r ==> !is_pending(mask, s)),
{
    let mut i: u32 = 0;
    while i < 64
        invariant
            i <= 64,
            spec_lowest(mask) == lowest_from(mask, i as u64),
            forall|s: u64| s < i ==> !is_pending(mask, s),
        decreases 64 - i,
    {
        if (mask >> (i as u64)) & 1u64 == 1u64 {
            assert(mask != 0) by (bit_vector)
                requires
                    (mask >> (i as u64)) & 1u64 == 1u64,
            ;
            return i;
        }
        i = i + 1;
    }
    proof {
        lemma_all_clear_means_zero(mask);
    }
    64
}

/// The mask bit of one signal number, executable form.
pub fn signal_bit(sig: i32) -> (r: u64)
    ensures
        r == spec_signal_bit(sig),
{
    if 0 < sig && sig < 64 {
        1u64 << (sig as u64)
    } else {
        0
    }
}

/// The process's pending signals, coalesced into one bit per signal number.
///
/// Signal number 0 stands for "no signal, the wait timed out" and is never
/// marked pending, so a drained 0 is unambiguous.
#[derive(Debug, Clone, Copy, PartialEq, Eq, Structural)]
pub struct SignalBridge {
    pub mask: u64,
}

impl SignalBridge {
    /// Bit 0 is never pending.
    pub open spec fn wf(self) -> bool {
        !is_pending(self.mask, 0)
    }

    /// A bridge with nothing pending.
    pub fn new() -> (r: SignalBridge)
        ensures
            r.mask == 0,
            r.wf(),
    {
        proof {
            assert((0u64 >> 0u64) & 1u64 != 1u64) by (bit_vector);
        }
        SignalBridge { mask: 0 }
    }

    /// What the handler does on a delivery of `sig`: mark its bit, and
    /// nothing else — a repeated delivery before a drain changes nothing.
    pub fn deliver(&mut self, sig: i32)
        ensures
            final(self).mask == spec_deliver(old(self).mask, sig),
            forall|s: u64|
                #[trigger] is_pending(final(self).mask, s) <==> (is_pending(old(self).mask, s) || (0
                    < sig < 64 && s == sig)),
            old(self).wf() ==> final(self).wf(),
    {
        let bit = signal_bit(sig);
        self.mask = self.mask | bit;
        proof {
            let m = old(self).mask;
            if 0 < sig && sig < 64 {
                let g = sig as u64;
                assert forall|s: u64| #[trigger] is_pending(m | (1u64 << g), s) <==> (is_pending(
                    m,
                    s,
                ) || s == g) by {
                    if s < 64 {
                        assert(((m | (1u64 << g)) >> s) & 1u64 == 1u64 <==> ((m >> s) & 1u64
                            == 1u64 || s == g)) by (bit_vector)
                            requires
                                g < 64,
                                s < 64,
                        ;
                    }
                }
                assert(0u64 < g);
            } else {
                assert(m | 0u64 == m) by (bit_vector);
            }
        }
    }

    /// Drains one event: 0 when nothing is pending, else the lowest-numbered
    /// pending signal, which is no longer pending afterwards; every other
    /// signal's pending bit is untouched.
    pub fn take(&mut self) -> (r: i32)
        requires
            old(self).wf(),
        ensures
            (final(self).mask, r) == spec_take(old(self).mask),
            final(self).wf(),
            0 <= r < 64,
            r == 0 <==> old(self).mask == 0,
            r == 0 ==> *final(self) == *old(self),
            r != 0 ==> {
                &&& is_pending(old(self).mask, r as u64)
                &&& forall|s: u64| s < r ==> !is_pending(old(self).mask, s)
                &&& !is_pending(final(self).mask, r as u64)
                &&& forall|s: u64|
                    s != r ==> (is_pending(final(self).mask, s) <==> is_pending(
                        old(self).mask,
                        s,
                    ))
            },
    {
        let low = lowest_pending(self.mask);
        if low >= 64 {
            return 0;
        }
        assert(low != 0);
        let g: u64 = low as u64;
        self.mask = self.mask & !(1u64 << g);
        proof {
            let m = old(self).mask;
            assert forall|s: u64| s != g implies ((is_pending(m & !(1u64 << g), s) <==> is_pending(
                m,
                s,
            ))) by {
                if s < 64 {
                    assert(((m & !(1u64 << g)) >> s) & 1u64 == (m >> s) & 1u64) by (bit_vector)
                        requires
                            g < 64,
                            s < 64,
                            s != g,
                    ;
                }
            }
            assert(((m & !(1u64 << g)) >> g) & 1u64 != 1u64) by (bit_vector)
                requires
                    g < 64,
            ;
        }
        low as i32
    }

    /// The wait protocol's decision after the blocking point: a timed-out
    /// wake is the routine tick with the mask untouched; any other wake
    /// re-checks the mask and drains exactly one pending signal, and when it
    /// finds nothing pending — a spurious wake, which healthy condition
    /// variables may produce — the waiter is told to wait again for the
    /// remaining time. No outcome here is a failure.
    pub fn finish_wait(&mut self, timed_out: bool) -> (r: WaitOutcome)
        requires
            old(self).wf(),
        ensures
            final(self).wf(),
            timed_out ==> r == WaitOutcome::Tick && *final(self) == *old(self),
            !timed_out && old(self).mask != 0 ==> (r matches WaitOutcome::Signal(s) && (
            final(self).mask,
            s,
            ) == spec_take(old(self).mask) && s != 0),
            !timed_out && old(self).mask == 0 ==> r == WaitOutcome::WaitAgain && *final(self)
                == *old(self),
    {
        if timed_out {
            return WaitOutcome::Tick;
        }
        let s = self.take();
        if s != 0 {
            WaitOutcome::Signal(s)
        } else {
            WaitOutcome::WaitAgain
        }
    }
}

/// What one pass of the wait protocol decided after a wake.
#[derive(Debug, Clone, Copy, PartialEq, Eq, Structural)]
pub enum WaitOutcome {
    /// The timeout elapsed with no event: the routine tick, reported to the
    /// driver as signal number 0.
    Tick,
    /// One pending signal was drained.
    Signal(i32),
    /// The wake found nothing pending (a spurious wake, or a wake whose
    /// delivery an earlier drain already took): wait again for the remaining
    /// time.
    WaitAgain,
}

/// Law: two deliveries of the same signal before a drain leave exactly what
/// one delivery leaves — deliveries coalesce instead of queueing.
pub proof fn lemma_deliveries_coalesce(mask: u64, sig: i32)
    ensures
        spec_deliver(spec_deliver(mask, sig), sig) == spec_deliver(mask, sig),
{
    let b = spec_signal_bit(sig);
    assert((mask | b) | b == mask | b) by (bit_vector);
}

/// Law: two distinct signals delivered before any drain come out one per
/// drain, the lower-numbered first, and a third drain finds nothing.
pub proof fn lemma_distinct_drain_in_order(a: i32, b: i32)
    requires
        0 < a < b < 64,
    ensures
        ({
            let m = spec_deliver(spec_deliver(0, a), b);
            &&& spec_take(m) == (spec_signal_bit(b), a)
            &&& spec_take(spec_signal_bit(b)) == (0u64, b)
            &&& spec_take(0) == (0u64, 0i32)
        }),
{
    let ga = a as u64;
    let gb = b as u64;
    let m = spec_deliver(spec_deliver(0, a), b);
    assert(m == (1u64 << ga) | (1u64 << gb)) by (bit_vector)
        requires
            m == (0 | (1u64 << ga)) | (1u64 << gb),
    ;
    assert(m != 0 && (m >> ga) & 1u64 == 1u64) by (bit_vector)
        requires
            m == (1u64 << ga) | (1u64 << gb),
            0 < ga < gb < 64,
    ;
    assert(forall|q: u64| q < ga ==> #[trigger] ((m >> q) & 1u64) != 1u64) by (bit_vector)
        requires
            m == (1u64 << ga) | (1u64 << gb),
            0 < ga < gb < 64,
    ;
    lemma_lowest_is_least(m, ga);
    assert(m & !(1u64 << ga) == (1u64 << gb)) by (bit_vector)
        requires
            m == (1u64 << ga) | (1u64 << gb),
            0 < ga < gb < 64,
    ;
    let n = 1u64 << gb;
    assert(n != 0 && (n >> gb) & 1u64 == 1u64) by (bit_vector)
        requires
            n == 1u64 << gb,
            gb < 64,
    ;
    assert(forall|q: u64| q < gb ==> #[trigger] ((n >> q) & 1u64) != 1u64) by (bit_vector)
        requires
            n == 1u64 << gb,
            gb < 64,
    ;
    lemma_lowest_is_least(n, gb);
    assert(n & !(1u64 << gb) == 0) by (bit_vector)
        requires
            n == 1u64 << gb,
    ;
}

} // verus!
